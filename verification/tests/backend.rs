use ncc::codegen::emit_object;
use ncc::error::CompileError;
use ncc::frontend::{parse, Expr, Function};

fn function(return_value: Expr) -> Function {
    Function { name: "main".to_owned(), return_value }
}

#[test]
fn object_file_has_a_known_header() {
    let bytes = emit_object(&function(Expr::Integer(42))).unwrap();
    assert!(bytes.len() > 4);
    let elf = bytes.starts_with(&[0x7f, b'E', b'L', b'F']);
    let macho = bytes.starts_with(&[0xcf, 0xfa, 0xed, 0xfe]);
    let coff = bytes.starts_with(&[0x64, 0x86]) || bytes.starts_with(&[0x64, 0xaa]);
    assert!(elf || macho || coff);
}

#[test]
fn object_file_exports_the_function_name() {
    let f = Function { name: "very_distinctive_name".to_owned(), return_value: Expr::Integer(1) };
    let bytes = emit_object(&f).unwrap();
    let needle = b"very_distinctive_name";
    assert!(bytes.windows(needle.len()).any(|w| w == needle));
}

#[test]
fn compiles_every_operator() {
    let source = "int main(void) { return -1 + !2 - ~3 * 4 / 5 % 6 << 7 >> 8 < 9 <= 10 > 11 >= 12 == 13 != 14 & 15 ^ 16 | 17; }";
    let f = parse(source).unwrap();
    assert!(emit_object(&f).is_ok());
}

#[test]
fn reports_the_first_unsupported_constant() {
    let f = function(Expr::Add(
        Box::new(Expr::Integer(3_000_000_000)),
        Box::new(Expr::Integer(4_000_000_000)),
    ));
    let err = emit_object(&f).unwrap_err();
    assert!(matches!(err, CompileError::IntegerOutOfRange { value: 3_000_000_000 }));
    assert_eq!(
        err.to_string(),
        "integer constant 3000000000 is outside NCC's supported 32-bit int range"
    );
}

#[test]
fn negative_constant_below_int_min_is_rejected() {
    let f = function(Expr::Integer(-2_147_483_649));
    let err = emit_object(&f).unwrap_err();
    assert!(matches!(err, CompileError::IntegerOutOfRange { value: -2_147_483_649 }));
    assert_eq!(
        err.to_string(),
        "integer constant -2147483649 is outside NCC's supported 32-bit int range"
    );
}

#[test]
fn int_min_only_directly_under_negation() {
    let nested = function(Expr::Neg(Box::new(Expr::Not(Box::new(Expr::Integer(2_147_483_648))))));
    assert!(matches!(
        emit_object(&nested).unwrap_err(),
        CompileError::IntegerOutOfRange { value: 2_147_483_648 }
    ));
    let double = function(Expr::Neg(Box::new(Expr::Neg(Box::new(Expr::Integer(2_147_483_648))))));
    assert!(emit_object(&double).is_ok());
}

#[test]
fn extreme_supported_constants_compile() {
    assert!(emit_object(&function(Expr::Integer(2_147_483_647))).is_ok());
    assert!(emit_object(&function(Expr::Integer(-2_147_483_648))).is_ok());
}
