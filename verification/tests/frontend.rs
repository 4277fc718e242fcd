use ncc::frontend::{parse, Expr};

#[test]
fn parses_first_program() {
    let f = parse("int main(void) { return 42; }").unwrap();
    assert_eq!(f.name, "main");
    assert_eq!(f.return_value, Expr::Integer(42));
}

#[test]
fn parses_all_comparisons() {
    for op in ["==", "!=", "<", "<=", ">", ">="] {
        parse(&format!("int main(void) {{ return 2 {op} 3; }}")).unwrap();
    }
}

#[test]
fn parses_logical_not() {
    let f = parse("int main(void) { return !!42; }").unwrap();
    assert!(matches!(f.return_value, Expr::Not(_)));
}

#[test]
fn parses_bitwise_complement() {
    let f = parse("int main(void) { return ~~42; }").unwrap();
    assert!(matches!(f.return_value, Expr::BitNot(_)));
}

#[test]
fn parses_unary_plus() {
    let f = parse("int main(void) { return +++42; }").unwrap();
    assert_eq!(f.return_value, Expr::Integer(42));
}

#[test]
fn comparison_precedence_is_c_like() {
    let f = parse("int main(void) { return 1 + 2 < 4 == 1; }").unwrap();
    assert!(matches!(f.return_value, Expr::Eq(_, _)));
}

#[test]
fn shift_precedence_is_c_like() {
    let f = parse("int main(void) { return 1 + 2 << 3 < 25; }").unwrap();
    assert!(matches!(f.return_value, Expr::Lt(_, _)));
    let Expr::Lt(lhs, _) = f.return_value else { unreachable!() };
    assert!(matches!(*lhs, Expr::Shl(_, _)));
}

#[test]
fn bitwise_precedence_is_c_like() {
    let f = parse("int main(void) { return 1 | 2 ^ 3 & 4 == 5; }").unwrap();
    assert!(matches!(f.return_value, Expr::BitOr(_, _)));
    let Expr::BitOr(_, rhs) = f.return_value else { unreachable!() };
    assert!(matches!(*rhs, Expr::BitXor(_, _)));
}

#[test]
fn ignores_line_and_block_comments() {
    let f = parse("/* before */ int main(void) { // explain\n return 40 /* gap */ + 2; }").unwrap();
    assert!(matches!(f.return_value, Expr::Add(_, _)));
}

#[test]
fn rejects_unterminated_block_comment() {
    let error = parse("int main(void) { return 42; /* missing end").unwrap_err().to_string();
    assert!(error.contains("unterminated block comment"));
}
