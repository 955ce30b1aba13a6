use qlang::lexer::{LexError, Lexer, Token};

fn lex(src: &str) -> Result<Vec<Token>, LexError> {
    let mut lexer = Lexer::new(src);
    lexer.try_tokenize()
}

fn lex_debug(src: &str) -> String {
    format!("{:?}", lex(src).expect("source should lex"))
}

#[test]
fn lexes_let_statement() {
    assert_eq!(
        lex_debug("let x = 5;"),
        "[Let, Ident(\"x\"), Assign, Number(\"5\"), Semicolon, Eof]"
    );
}

#[test]
fn lexes_every_symbol() {
    assert_eq!(
        lex_debug("= : ; , + - * / @ ( ) [ ] |> .+ .- .* ./ .."),
        "[Assign, Colon, Semicolon, Comma, Plus, Minus, Star, Slash, At, LParen, RParen, \
         LBracket, RBracket, PipeGreater, DotPlus, DotMinus, DotStar, DotSlash, DotDot, Eof]"
    );
}

#[test]
fn lexes_number_with_fraction() {
    assert_eq!(lex_debug("3.14"), "[Number(\"3.14\"), Eof]");
}

#[test]
fn range_dots_end_a_number() {
    assert_eq!(
        lex_debug("1..3"),
        "[Number(\"1\"), DotDot, Number(\"3\"), Eof]"
    );
}

#[test]
fn second_dot_is_not_part_of_number() {
    match lex("1.2.3") {
        Err(LexError::UnexpectedCharacter(c)) => assert_eq!(c, '.'),
        other => panic!("unexpected result {:?}", other),
    }
}

#[test]
fn keyword_needs_whole_word() {
    assert_eq!(lex_debug("letx let"), "[Ident(\"letx\"), Let, Eof]");
}

#[test]
fn identifier_continues_with_digits_and_underscores() {
    assert_eq!(lex_debug("_w1_b"), "[Ident(\"_w1_b\"), Eof]");
}

#[test]
fn identifier_continues_with_unicode_letters() {
    assert_eq!(lex_debug("aé9"), "[Ident(\"aé9\"), Eof]");
}

#[test]
fn unicode_whitespace_separates_tokens() {
    assert_eq!(
        lex_debug("x\u{00A0}y\u{2003}z"),
        "[Ident(\"x\"), Ident(\"y\"), Ident(\"z\"), Eof]"
    );
}

#[test]
fn comment_runs_to_end_of_line() {
    assert_eq!(
        lex_debug("// a comment ; let\nlet a = 1; // trailing"),
        "[Let, Ident(\"a\"), Assign, Number(\"1\"), Semicolon, Eof]"
    );
}

#[test]
fn single_slash_is_division() {
    assert_eq!(
        lex_debug("a / b"),
        "[Ident(\"a\"), Slash, Ident(\"b\"), Eof]"
    );
}

#[test]
fn empty_source_is_only_eof() {
    assert_eq!(lex_debug(""), "[Eof]");
    assert_eq!(lex_debug("  \n\t // only a comment"), "[Eof]");
}

#[test]
fn lone_bar_is_rejected() {
    match lex("a | b") {
        Err(LexError::UnexpectedCharacter(c)) => assert_eq!(c, '|'),
        other => panic!("unexpected result {:?}", other),
    }
}

#[test]
fn lone_dot_is_rejected() {
    match lex("a . b") {
        Err(LexError::UnexpectedCharacter(c)) => assert_eq!(c, '.'),
        other => panic!("unexpected result {:?}", other),
    }
    match lex("a.") {
        Err(LexError::UnexpectedCharacter(c)) => assert_eq!(c, '.'),
        other => panic!("unexpected result {:?}", other),
    }
}

#[test]
fn unknown_character_is_rejected() {
    match lex("let x = #;") {
        Err(LexError::UnexpectedCharacter(c)) => assert_eq!(c, '#'),
        other => panic!("unexpected result {:?}", other),
    }
}

#[test]
fn tokens_end_with_a_single_eof() {
    let tokens = lex("let m = zeros(2, 3); print(m);").unwrap();
    assert!(matches!(tokens.last(), Some(Token::Eof)));
    let eofs = tokens.iter().filter(|t| matches!(t, Token::Eof)).count();
    assert_eq!(eofs, 1);
}

#[test]
fn tokenize_matches_try_tokenize() {
    let mut lexer = Lexer::new("print(x);");
    let tokens = lexer.tokenize();
    assert_eq!(
        format!("{:?}", tokens),
        "[Ident(\"print\"), LParen, Ident(\"x\"), RParen, Semicolon, Eof]"
    );
}

#[test]
fn classified_tokenize_follows_the_given_classes() {
    let mut lexer = Lexer::new("a b");
    let space = vec![false, false, false];
    let word = vec![true, false, true];
    match lexer.try_tokenize_classified(&space, &word) {
        Err(LexError::UnexpectedCharacter(c)) => assert_eq!(c, ' '),
        other => panic!("unexpected result {:?}", other),
    }

    let mut lexer = Lexer::new("ab b");
    let space = vec![false, false, true, false];
    let word = vec![true, false, false, true];
    let tokens = lexer.try_tokenize_classified(&space, &word).unwrap();
    assert_eq!(
        format!("{:?}", tokens),
        "[Ident(\"a\"), Ident(\"b\"), Ident(\"b\"), Eof]"
    );
}

#[test]
fn leading_comment_line_yields_no_tokens() {
    assert_eq!(
        lex_debug("// setup | . # ;\nlet x = [1, 2] @ M;"),
        lex_debug("let x = [1, 2] @ M;")
    );
    assert_eq!(lex_debug("//\nx"), lex_debug("x"));
    assert_eq!(lex_debug("// c\n \t\u{3000} let y = 2;"), lex_debug("let y = 2;"));
    assert_eq!(lex_debug("// c\n x + 1 \n\u{A0}"), lex_debug("x + 1"));
}

#[test]
fn trailing_whitespace_yields_no_tokens() {
    assert_eq!(lex_debug("abc \t\n"), lex_debug("abc"));
    assert_eq!(lex_debug("1. "), lex_debug("1."));
    assert_eq!(lex_debug("x // note \n  "), lex_debug("x"));
}

#[test]
fn whitespace_class_agrees_with_std() {
    for code in 0u32..0x3100 {
        let c = match char::from_u32(code) {
            Some(c) => c,
            None => continue,
        };
        if c.is_whitespace() {
            assert_eq!(
                lex_debug(&format!("a{}b", c)),
                "[Ident(\"a\"), Ident(\"b\"), Eof]",
                "code {:x}",
                code
            );
        }
    }
    for c in ['\u{1C}', '\u{1F}', '\u{200B}', '\u{FEFF}', '\u{180E}'] {
        assert!(!c.is_whitespace());
        match lex(&format!("a {} b", c)) {
            Err(LexError::UnexpectedCharacter(found)) => assert_eq!(found, c),
            other => panic!("unexpected result {:?}", other),
        }
    }
}
