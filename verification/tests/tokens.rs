use ncc::token::Token;

fn text(t: &Token) -> String {
    let mut out = String::new();
    t.write_text(&mut out);
    out
}

#[test]
fn token_text_matches_debug_spelling() {
    assert_eq!(text(&Token::Semi), "Semi");
    assert_eq!(text(&Token::EqEq), "EqEq");
    assert_eq!(text(&Token::Ident("main".to_owned())), "Ident(\"main\")");
    assert_eq!(text(&Token::Number(-12)), "Number(-12)");
    assert_eq!(text(&Token::Number(i64::MIN)), "Number(-9223372036854775808)");
    assert_eq!(text(&Token::Eof), format!("{:?}", Token::Eof));
    assert_eq!(text(&Token::Ident("x".to_owned())), format!("{:?}", Token::Ident("x".to_owned())));
}

#[test]
fn duplicate_and_same_agree() {
    let t = Token::Ident("abc".to_owned());
    let d = t.duplicate();
    assert!(t.same(&d));
    assert!(!t.same(&Token::Ident("abd".to_owned())));
    assert!(!Token::Number(1).same(&Token::Number(2)));
    assert!(Token::Number(3).same(&Token::Number(3)));
    assert!(!Token::Plus.same(&Token::Minus));
}
