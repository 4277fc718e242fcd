use ncc::codegen::{compile_module, lower, lower_expr};
use ncc::error::CompileError;
use ncc::frontend::{parse, Expr};
use ncc::ir::{Arith, Comparison, Inst};

fn num(v: i64) -> Box<Expr> {
    Box::new(Expr::Integer(v))
}

#[test]
fn int_min_is_one_constant() {
    let e = Expr::Neg(num(2_147_483_648));
    assert_eq!(lower(&e).unwrap(), vec![Inst::Iconst(-2_147_483_648)]);
}

#[test]
fn constant_is_one_iconst() {
    assert_eq!(lower(&Expr::Integer(2_147_483_647)).unwrap(), vec![Inst::Iconst(2_147_483_647)]);
    assert_eq!(lower(&Expr::Integer(-2_147_483_648)).unwrap(), vec![Inst::Iconst(-2_147_483_648)]);
}

#[test]
fn other_negations_use_ineg() {
    let e = Expr::Neg(num(5));
    assert_eq!(lower(&e).unwrap(), vec![Inst::Iconst(5), Inst::Ineg(1)]);
    let e = Expr::Neg(Box::new(Expr::Neg(num(2_147_483_648))));
    assert_eq!(lower(&e).unwrap(), vec![Inst::Iconst(-2_147_483_648), Inst::Ineg(1)]);
}

#[test]
fn subtraction_takes_the_left_operand_first() {
    let e = Expr::Sub(num(1), num(2));
    assert_eq!(
        lower(&e).unwrap(),
        vec![Inst::Iconst(1), Inst::Iconst(2), Inst::Binary(Arith::Sub, 2, 1)]
    );
}

#[test]
fn logical_not_compares_with_zero() {
    let e = Expr::Not(num(5));
    assert_eq!(
        lower(&e).unwrap(),
        vec![Inst::Iconst(5), Inst::CompareImm(Comparison::Equal, 1, 0), Inst::Uextend(1)]
    );
}

#[test]
fn complement_is_bnot() {
    let e = Expr::BitNot(num(5));
    assert_eq!(lower(&e).unwrap(), vec![Inst::Iconst(5), Inst::Bnot(1)]);
}

#[test]
fn comparisons_are_signed_and_widened() {
    let cases = [
        (Expr::Lt(num(1), num(2)), Comparison::SignedLessThan),
        (Expr::Le(num(1), num(2)), Comparison::SignedLessThanOrEqual),
        (Expr::Gt(num(1), num(2)), Comparison::SignedGreaterThan),
        (Expr::Ge(num(1), num(2)), Comparison::SignedGreaterThanOrEqual),
        (Expr::Eq(num(1), num(2)), Comparison::Equal),
        (Expr::Ne(num(1), num(2)), Comparison::NotEqual),
    ];
    for (e, cc) in cases {
        assert_eq!(
            lower(&e).unwrap(),
            vec![Inst::Iconst(1), Inst::Iconst(2), Inst::Compare(cc, 2, 1), Inst::Uextend(1)]
        );
    }
}

#[test]
fn each_operator_has_its_instruction() {
    let cases = [
        (Expr::Add(num(7), num(3)), Arith::Add),
        (Expr::Mul(num(7), num(3)), Arith::Mul),
        (Expr::Div(num(7), num(3)), Arith::Div),
        (Expr::Rem(num(7), num(3)), Arith::Rem),
        (Expr::Shl(num(7), num(3)), Arith::Shl),
        (Expr::Shr(num(7), num(3)), Arith::Shr),
        (Expr::BitAnd(num(7), num(3)), Arith::And),
        (Expr::BitXor(num(7), num(3)), Arith::Xor),
        (Expr::BitOr(num(7), num(3)), Arith::Or),
    ];
    for (e, op) in cases {
        assert_eq!(
            lower(&e).unwrap(),
            vec![Inst::Iconst(7), Inst::Iconst(3), Inst::Binary(op, 2, 1)]
        );
    }
}

#[test]
fn operands_reach_back_over_the_right_operand() {
    let e = Expr::BitOr(num(32), Box::new(Expr::BitXor(num(8), num(2))));
    assert_eq!(
        lower(&e).unwrap(),
        vec![
            Inst::Iconst(32),
            Inst::Iconst(8),
            Inst::Iconst(2),
            Inst::Binary(Arith::Xor, 2, 1),
            Inst::Binary(Arith::Or, 4, 1),
        ]
    );
    let e = Expr::Shr(Box::new(Expr::Shl(num(21), num(2))), num(1));
    assert_eq!(
        lower(&e).unwrap(),
        vec![
            Inst::Iconst(21),
            Inst::Iconst(2),
            Inst::Binary(Arith::Shl, 2, 1),
            Inst::Iconst(1),
            Inst::Binary(Arith::Shr, 2, 1),
        ]
    );
}

#[test]
fn lowering_reports_the_first_unsupported_constant() {
    let e = Expr::Mul(num(2_147_483_648), num(-2_147_483_649));
    assert!(matches!(lower(&e), Err(CompileError::IntegerOutOfRange { value: 2_147_483_648 })));
    let e = Expr::Neg(num(2_147_483_649));
    assert!(matches!(lower(&e), Err(CompileError::IntegerOutOfRange { value: 2_147_483_649 })));
    let e = Expr::Lt(num(1), num(-2_147_483_649));
    assert!(matches!(lower(&e), Err(CompileError::IntegerOutOfRange { value: -2_147_483_649 })));
}

#[test]
fn module_is_built_for_a_parsed_program() {
    let f = parse("int main(void) { return 6 * 7; }").unwrap();
    assert!(compile_module(&f).is_ok());
    let f = parse("int main(void) { return 4294967296; }").unwrap();
    assert!(matches!(
        compile_module(&f),
        Err(CompileError::IntegerOutOfRange { value: 4_294_967_296 })
    ));
}

#[test]
fn lowering_appends_and_stops_at_the_first_unsupported_constant() {
    let mut out = vec![Inst::Iconst(9)];
    lower_expr(&Expr::Add(num(1), num(2)), &mut out).unwrap();
    assert_eq!(
        out,
        vec![Inst::Iconst(9), Inst::Iconst(1), Inst::Iconst(2), Inst::Binary(Arith::Add, 2, 1)]
    );
    let mut out = vec![Inst::Iconst(9)];
    let e = Expr::Add(num(1), Box::new(Expr::Sub(num(1_i64 << 40), num(3))));
    assert!(matches!(
        lower_expr(&e, &mut out),
        Err(CompileError::IntegerOutOfRange { value: 1_099_511_627_776 })
    ));
    assert_eq!(out, vec![Inst::Iconst(9), Inst::Iconst(1)]);
}
