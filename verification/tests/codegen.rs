use ncc::codegen::emit_object;
use ncc::frontend::{Expr, Function};

#[test]
fn rejects_integer_constants_outside_supported_int_range() {
    let function = Function { name: "main".to_owned(), return_value: Expr::Integer(i64::from(i32::MAX) + 1) };
    let error = emit_object(&function).unwrap_err().to_string();
    assert!(error.contains("supported 32-bit int range"));
}

#[test]
fn accepts_minimum_signed_32_bit_integer() {
    let function = Function { name: "main".to_owned(), return_value: Expr::Neg(Box::new(Expr::Integer(2_147_483_648))) };
    assert!(emit_object(&function).is_ok());
}

#[test]
fn lowers_shift_expression() {
    let function = Function {
        name: "main".to_owned(),
        return_value: Expr::Shr(
            Box::new(Expr::Shl(Box::new(Expr::Integer(21)), Box::new(Expr::Integer(2)))),
            Box::new(Expr::Integer(1)),
        ),
    };
    assert!(emit_object(&function).is_ok());
}

#[test]
fn lowers_binary_bitwise_expression() {
    let function = Function {
        name: "main".to_owned(),
        return_value: Expr::BitOr(
            Box::new(Expr::Integer(32)),
            Box::new(Expr::BitXor(Box::new(Expr::Integer(8)), Box::new(Expr::Integer(2)))),
        ),
    };
    assert!(emit_object(&function).is_ok());
}
