use ncc::frontend::{parse, Expr};

fn b(e: Expr) -> Box<Expr> {
    Box::new(e)
}

/// Fully parenthesized spelling, a space after every token.
fn print(e: &Expr, out: &mut String) {
    let bin = |op: &str, l: &Expr, r: &Expr, out: &mut String| {
        out.push_str("( ");
        print(l, out);
        out.push_str(op);
        out.push(' ');
        print(r, out);
        out.push_str(") ");
    };
    match e {
        Expr::Integer(v) => out.push_str(&format!("{v} ")),
        Expr::Neg(x) => {
            out.push_str("- ");
            print(x, out);
        }
        Expr::Not(x) => {
            out.push_str("! ");
            print(x, out);
        }
        Expr::BitNot(x) => {
            out.push_str("~ ");
            print(x, out);
        }
        Expr::Add(l, r) => bin("+", l, r, out),
        Expr::Sub(l, r) => bin("-", l, r, out),
        Expr::Mul(l, r) => bin("*", l, r, out),
        Expr::Div(l, r) => bin("/", l, r, out),
        Expr::Rem(l, r) => bin("%", l, r, out),
        Expr::Shl(l, r) => bin("<<", l, r, out),
        Expr::Shr(l, r) => bin(">>", l, r, out),
        Expr::Eq(l, r) => bin("==", l, r, out),
        Expr::Ne(l, r) => bin("!=", l, r, out),
        Expr::Lt(l, r) => bin("<", l, r, out),
        Expr::Le(l, r) => bin("<=", l, r, out),
        Expr::Gt(l, r) => bin(">", l, r, out),
        Expr::Ge(l, r) => bin(">=", l, r, out),
        Expr::BitAnd(l, r) => bin("&", l, r, out),
        Expr::BitXor(l, r) => bin("^", l, r, out),
        Expr::BitOr(l, r) => bin("|", l, r, out),
    }
}

fn program(name: &str, e: &Expr) -> String {
    let mut out = format!("int {name} ( void ) {{ return ");
    print(e, &mut out);
    out.push_str("; } ");
    out
}

#[test]
fn printed_program_parses_back() {
    let e = Expr::Sub(
        b(Expr::Neg(b(Expr::Mul(b(Expr::Integer(7)), b(Expr::BitNot(b(Expr::Integer(0)))))))),
        b(Expr::BitOr(
            b(Expr::Shr(b(Expr::Integer(1)), b(Expr::Integer(9223372036854775807)))),
            b(Expr::Ne(
                b(Expr::Not(b(Expr::Integer(3)))),
                b(Expr::Rem(b(Expr::Integer(10)), b(Expr::Le(b(Expr::Integer(4)), b(Expr::Integer(5)))))),
            )),
        )),
    );
    let source = program("_f2", &e);
    let f = parse(&source).unwrap();
    assert_eq!(f.name, "_f2");
    assert_eq!(f.return_value, e);
}

#[test]
fn printed_nested_right_operands_parse_back() {
    let e = Expr::Add(
        b(Expr::Integer(1)),
        b(Expr::Add(b(Expr::Integer(2)), b(Expr::Add(b(Expr::Integer(3)), b(Expr::Integer(4)))))),
    );
    let f = parse(&program("main", &e)).unwrap();
    assert_eq!(f.return_value, e);
}

#[test]
fn unary_plus_reads_as_its_operand() {
    let plain = parse("int main(void) { return (1 + 2); }").unwrap();
    let plus = parse("int main(void) { return + + (1 + 2); }").unwrap();
    assert_eq!(plain.return_value, plus.return_value);
}
