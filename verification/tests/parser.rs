use ncc::error::CompileError;
use ncc::frontend::{parse, Expr};
use ncc::token::Token;

fn num(v: i64) -> Box<Expr> {
    Box::new(Expr::Integer(v))
}

fn body(expr: &str) -> Expr {
    parse(&format!("int f(void) {{ return {expr}; }}")).unwrap().return_value
}

#[test]
fn subtraction_associates_to_the_left() {
    assert_eq!(body("1 - 2 - 3"), Expr::Sub(Box::new(Expr::Sub(num(1), num(2))), num(3)));
}

#[test]
fn multiplication_binds_tighter_than_addition() {
    assert_eq!(body("1 + 2 * 3"), Expr::Add(num(1), Box::new(Expr::Mul(num(2), num(3)))));
    assert_eq!(body("1 * 2 + 3"), Expr::Add(Box::new(Expr::Mul(num(1), num(2))), num(3)));
}

#[test]
fn parentheses_override_precedence() {
    assert_eq!(body("(1 + 2) * 3"), Expr::Mul(Box::new(Expr::Add(num(1), num(2))), num(3)));
}

#[test]
fn unary_operators_nest_to_the_right() {
    assert_eq!(body("-~!7"), Expr::Neg(Box::new(Expr::BitNot(Box::new(Expr::Not(num(7)))))));
    assert_eq!(body("- 2147483648"), Expr::Neg(num(2147483648)));
}

#[test]
fn unary_binds_tighter_than_binary() {
    assert_eq!(body("-1 * 2"), Expr::Mul(Box::new(Expr::Neg(num(1))), num(2)));
}

#[test]
fn every_level_in_one_expression() {
    let e = body("1 | 2 ^ 3 & 4 == 5 < 6 << 7 + 8 * 9");
    let expected = Expr::BitOr(
        num(1),
        Box::new(Expr::BitXor(
            num(2),
            Box::new(Expr::BitAnd(
                num(3),
                Box::new(Expr::Eq(
                    num(4),
                    Box::new(Expr::Lt(
                        num(5),
                        Box::new(Expr::Shl(
                            num(6),
                            Box::new(Expr::Add(num(7), Box::new(Expr::Mul(num(8), num(9))))),
                        )),
                    )),
                )),
            )),
        )),
    );
    assert_eq!(e, expected);
}

#[test]
fn keeps_the_function_name() {
    let f = parse("int answer_42(void) { return 0; }").unwrap();
    assert_eq!(f.name, "answer_42");
}

#[test]
fn missing_expression_is_reported() {
    let err = parse("int main(void) { return ; }").unwrap_err();
    assert!(matches!(err, CompileError::ExpectedExpression { found: Token::Semi }));
    assert_eq!(err.to_string(), "expected expression, found Semi");
}

#[test]
fn missing_name_is_reported() {
    let err = parse("int (void) { return 1; }").unwrap_err();
    assert!(matches!(err, CompileError::ExpectedFunctionName { found: Token::LParen }));
    assert_eq!(err.to_string(), "expected function name, found LParen");
}

#[test]
fn missing_semicolon_is_reported() {
    let err = parse("int main(void) { return 1 }").unwrap_err();
    assert_eq!(err.to_string(), "expected Semi, found RBrace");
}

#[test]
fn trailing_tokens_are_reported() {
    let err = parse("int main(void) { return 1; } x").unwrap_err();
    assert_eq!(err.to_string(), "expected Eof, found Ident(\"x\")");
    let err = parse("int main(void) { return 1; } 7").unwrap_err();
    assert_eq!(err.to_string(), "expected Eof, found Number(7)");
}

#[test]
fn wrong_return_type_is_reported() {
    let err = parse("void main(void) { return 1; }").unwrap_err();
    assert_eq!(err.to_string(), "expected Int, found Void");
}

#[test]
fn unclosed_parenthesis_is_reported() {
    let err = parse("int main(void) { return (1 + 2; }").unwrap_err();
    assert_eq!(err.to_string(), "expected RParen, found Semi");
}

#[test]
fn empty_source_is_reported() {
    let err = parse("").unwrap_err();
    assert_eq!(err.to_string(), "expected Int, found Eof");
}

#[test]
fn lexer_errors_come_first() {
    let err = parse("int main(void) { return 1 @ ; }").unwrap_err();
    assert!(matches!(err, CompileError::UnexpectedByte { byte: b'@', offset: 26 }));
}

#[test]
fn leading_whitespace_and_comments_change_nothing() {
    let plain = parse("int main(void) { return 1 + 2 * 3; }").unwrap();
    let decorated = parse(" \t\r\n/* a */ // b\nint main(void) { return 1 + 2 * 3; }").unwrap();
    assert_eq!(plain.name, decorated.name);
    assert_eq!(plain.return_value, decorated.return_value);
}

#[test]
fn cloned_expression_is_equal() {
    let e = body("-(1 + 2) * ~3 != 4");
    let copy = e.clone();
    assert_eq!(e, copy);
}

#[test]
fn expression_ends_at_the_first_token_that_is_no_operator() {
    let err = parse("int f(void) { return 1 + 2 * 3 ) ; }").unwrap_err();
    assert!(matches!(err, CompileError::Expected { expected: Token::Semi, found: Token::RParen }));
    assert_eq!(err.to_string(), "expected Semi, found RParen");
    let err = parse("int f(void) { return 1 << 2 7; }").unwrap_err();
    assert!(matches!(err, CompileError::Expected { expected: Token::Semi, found: Token::Number(7) }));
}
