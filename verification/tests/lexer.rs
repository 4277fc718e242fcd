use ncc::error::CompileError;
use ncc::lexer::lex;
use ncc::token::Token;

fn kinds(source: &str) -> Vec<Token> {
    lex(source).unwrap()
}

#[test]
fn lexes_keywords_identifiers_and_numbers() {
    let ts = kinds("int main void return x_1 007");
    assert!(matches!(ts[0], Token::Int));
    assert!(matches!(&ts[1], Token::Ident(s) if s == "main"));
    assert!(matches!(ts[2], Token::Void));
    assert!(matches!(ts[3], Token::Return));
    assert!(matches!(&ts[4], Token::Ident(s) if s == "x_1"));
    assert!(matches!(ts[5], Token::Number(7)));
    assert!(matches!(ts[6], Token::Eof));
    assert_eq!(ts.len(), 7);
}

#[test]
fn keyword_prefixes_are_identifiers() {
    let ts = kinds("integer voids returned in");
    for (i, name) in ["integer", "voids", "returned", "in"].iter().enumerate() {
        assert!(matches!(&ts[i], Token::Ident(s) if s == name));
    }
}

#[test]
fn lexes_two_byte_operators_before_one_byte_ones() {
    let ts = kinds("== != <= >= << >> < > ! ~ & ^ | + - * / % ( ) { } ;");
    let expected = [
        Token::EqEq, Token::NotEq, Token::Le, Token::Ge, Token::Shl, Token::Shr, Token::Lt,
        Token::Gt, Token::Bang, Token::Tilde, Token::Amp, Token::Caret, Token::Pipe, Token::Plus,
        Token::Minus, Token::Star, Token::Slash, Token::Percent, Token::LParen, Token::RParen,
        Token::LBrace, Token::RBrace, Token::Semi, Token::Eof,
    ];
    assert_eq!(ts.len(), expected.len());
    for (t, e) in ts.iter().zip(expected.iter()) {
        assert!(t.same(e));
    }
}

#[test]
fn empty_source_is_just_the_end() {
    let ts = kinds("");
    assert_eq!(ts.len(), 1);
    assert!(matches!(ts[0], Token::Eof));
}

#[test]
fn comments_and_whitespace_separate_tokens() {
    let ts = kinds("int/**/main // rest of line\n\t\r(");
    assert!(matches!(ts[0], Token::Int));
    assert!(matches!(&ts[1], Token::Ident(s) if s == "main"));
    assert!(matches!(ts[2], Token::LParen));
    assert!(matches!(ts[3], Token::Eof));
}

#[test]
fn line_comment_may_end_the_source() {
    let ts = kinds("42 // no newline");
    assert!(matches!(ts[0], Token::Number(42)));
    assert!(matches!(ts[1], Token::Eof));
}

#[test]
fn largest_literal_is_accepted() {
    let ts = kinds("9223372036854775807");
    assert!(matches!(ts[0], Token::Number(i64::MAX)));
}

#[test]
fn literal_past_i64_is_rejected() {
    let err = lex("x 9223372036854775808").unwrap_err();
    assert!(matches!(err, CompileError::InvalidIntegerLiteral { offset: 2 }));
    assert_eq!(err.to_string(), "invalid integer literal");
}

#[test]
fn unexpected_byte_reports_offset() {
    let err = lex("int @").unwrap_err();
    assert!(matches!(err, CompileError::UnexpectedByte { byte: b'@', offset: 4 }));
    assert_eq!(err.to_string(), "unexpected byte '@' at offset 4");
}

#[test]
fn lone_equals_is_unexpected() {
    let err = lex("a = b").unwrap_err();
    assert!(matches!(err, CompileError::UnexpectedByte { byte: b'=', offset: 2 }));
}

#[test]
fn unexpected_bytes_are_quoted_as_latin1_characters() {
    assert_eq!(lex("\u{7f}").unwrap_err().to_string(), "unexpected byte '\\u{7f}' at offset 0");
    assert_eq!(lex("\u{1}").unwrap_err().to_string(), "unexpected byte '\\u{1}' at offset 0");
    assert_eq!(lex("'").unwrap_err().to_string(), "unexpected byte '\\'' at offset 0");
    assert_eq!(lex("é").unwrap_err().to_string(), "unexpected byte 'Ã' at offset 0");
    assert_eq!(lex("\u{a0}").unwrap_err().to_string(), "unexpected byte 'Â' at offset 0");
    assert_eq!(lex("\u{80}").unwrap_err().to_string(), "unexpected byte 'Â' at offset 0");
}

#[test]
fn latin1_bytes_without_printable_form_are_escaped() {
    let message = |byte: u8| CompileError::UnexpectedByte { byte, offset: 3 }.to_string();
    assert_eq!(message(0xa0), "unexpected byte '\\u{a0}' at offset 3");
    assert_eq!(message(0xad), "unexpected byte '\\u{ad}' at offset 3");
    assert_eq!(message(0x9f), "unexpected byte '\\u{9f}' at offset 3");
    assert_eq!(message(0xa1), "unexpected byte '¡' at offset 3");
    assert_eq!(message(0xff), "unexpected byte 'ÿ' at offset 3");
}

#[test]
fn comment_opener_alone_is_unterminated() {
    let err = lex("1 /*/").unwrap_err();
    assert!(matches!(err, CompileError::UnterminatedComment { offset: 2 }));
    assert_eq!(err.to_string(), "unterminated block comment at offset 2");
}

#[test]
fn comment_with_stars_closes_at_first_star_slash() {
    let ts = kinds("/***/ 5 /* a */ 6");
    assert!(matches!(ts[0], Token::Number(5)));
    assert!(matches!(ts[1], Token::Number(6)));
    assert!(matches!(ts[2], Token::Eof));
}

#[test]
fn leading_comment_moves_error_offsets() {
    // The lexing of a source and of the same source behind a comment agree,
    // but for the offsets of errors.
    let plain = lex("int $").unwrap_err();
    let behind = lex("/* c */int $").unwrap_err();
    assert!(matches!(plain, CompileError::UnexpectedByte { offset: 4, .. }));
    assert!(matches!(behind, CompileError::UnexpectedByte { offset: 11, .. }));
}

fn spelled(source: &str) -> Vec<String> {
    kinds(source).iter().map(|t| format!("{t:?}")).collect()
}

#[test]
fn lexing_goes_line_by_line() {
    // The tokens of a line that ends with a newline, then those of the rest.
    let mut expected = spelled("x <\n");
    expected.pop();
    expected.extend(spelled("< 2 // tail"));
    assert_eq!(spelled("x <\n< 2 // tail"), expected);
    assert!(!spelled("x <\n< 2").contains(&"Shl".to_string()));
    assert!(spelled("x << 2").contains(&"Shl".to_string()));
    // An error after the line moves by the line's length.
    let err = lex("x <\n$").unwrap_err();
    assert!(matches!(err, CompileError::UnexpectedByte { byte: b'$', offset: 4 }));
}

#[test]
fn separators_between_lines_are_ignored() {
    let plain = spelled("int\nmain(void)");
    assert_eq!(spelled("int\n main(void)"), plain);
    assert_eq!(spelled("int\n/* between */main(void)"), plain);
    assert_eq!(spelled("int\n// between\nmain(void)"), plain);
    let plain = lex("1\n@").unwrap_err();
    let spaced = lex("1\n/* c */@").unwrap_err();
    assert!(matches!(plain, CompileError::UnexpectedByte { offset: 2, .. }));
    assert!(matches!(spaced, CompileError::UnexpectedByte { offset: 9, .. }));
}

#[test]
fn whitespace_between_tokens_is_free() {
    let plain = spelled("int main(void) { return 1+2; }");
    assert_eq!(spelled("int  main(void)\t{ return \r\n 1 +\t2 ;\n}"), plain);
    assert_eq!(spelled("int\n\nmain(void) {\treturn 1+2; }"), plain);
    let narrow = lex("1 $").unwrap_err();
    let wide = lex("1 \t \n$").unwrap_err();
    assert!(matches!(narrow, CompileError::UnexpectedByte { offset: 2, .. }));
    assert!(matches!(wide, CompileError::UnexpectedByte { offset: 5, .. }));
}

#[test]
fn opener_star_does_not_close_its_comment() {
    let err = lex("x /*/ y").unwrap_err();
    assert!(matches!(err, CompileError::UnterminatedComment { offset: 2 }));
}

#[test]
fn numbers_and_minus_signs_lex_as_written() {
    assert_eq!(spelled("007"), vec!["Number(7)", "Eof"]);
    assert_eq!(spelled("x-1"), vec!["Ident(\"x\")", "Minus", "Number(1)", "Eof"]);
    assert_eq!(spelled("--12ab"), vec!["Minus", "Minus", "Number(12)", "Ident(\"ab\")", "Eof"]);
    assert_eq!(spelled("1/*2*/3"), vec!["Number(1)", "Number(3)", "Eof"]);
}
