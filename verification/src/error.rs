//! Why a compilation failed.
use vstd::prelude::*;

use crate::text::{
    byte_literal_text, push_byte_literal, push_decimal, push_decimal_i64, spec_decimal,
    spec_decimal_i64,
};
use crate::token::{token_text, Token, TokenView};

verus! {

/// An error of the compiler: of the lexer, the parser, the lowering, or the
/// code generator behind it.
#[derive(Debug)]
pub enum CompileError {
    /// A `/*` at `offset` has no matching `*/`.
    UnterminatedComment { offset: usize },
    /// A byte that starts no token, at `offset`.
    UnexpectedByte { byte: u8, offset: usize },
    /// A decimal literal starting at `offset` whose value exceeds `i64::MAX`.
    InvalidIntegerLiteral { offset: usize },
    /// The parser wanted `expected` and read `found`.
    Expected { expected: Token, found: Token },
    /// The parser wanted the name of the function and read `found`.
    ExpectedFunctionName { found: Token },
    /// The parser wanted the start of an expression and read `found`.
    ExpectedExpression { found: Token },
    /// An integer constant outside the 32-bit range of `int`.
    IntegerOutOfRange { value: i64 },
    /// The code generator refused the function; `message` is its explanation.
    Backend { message: String },
}

/// The mathematical value of a `CompileError`.
pub enum ErrorView {
    UnterminatedComment { offset: nat },
    UnexpectedByte { byte: u8, offset: nat },
    InvalidIntegerLiteral { offset: nat },
    Expected { expected: TokenView, found: TokenView },
    ExpectedFunctionName { found: TokenView },
    ExpectedExpression { found: TokenView },
    IntegerOutOfRange { value: i64 },
    Backend { message: Seq<char> },
}

impl View for CompileError {
    type V = ErrorView;

    open spec fn view(&self) -> ErrorView {
        match self {
            CompileError::UnterminatedComment { offset } => ErrorView::UnterminatedComment {
                offset: *offset as nat,
            },
            CompileError::UnexpectedByte { byte, offset } => ErrorView::UnexpectedByte {
                byte: *byte,
                offset: *offset as nat,
            },
            CompileError::InvalidIntegerLiteral { offset } => ErrorView::InvalidIntegerLiteral {
                offset: *offset as nat,
            },
            CompileError::Expected { expected, found } => ErrorView::Expected {
                expected: expected@,
                found: found@,
            },
            CompileError::ExpectedFunctionName { found } => ErrorView::ExpectedFunctionName {
                found: found@,
            },
            CompileError::ExpectedExpression { found } => ErrorView::ExpectedExpression {
                found: found@,
            },
            CompileError::IntegerOutOfRange { value } => ErrorView::IntegerOutOfRange {
                value: *value,
            },
            CompileError::Backend { message } => ErrorView::Backend { message: message@ },
        }
    }
}

/// The human-readable explanation of an error.
pub open spec fn error_message(e: ErrorView) -> Seq<char> {
    match e {
        ErrorView::UnterminatedComment { offset } => "unterminated block comment at offset "@
            + spec_decimal(offset),
        ErrorView::UnexpectedByte { byte, offset } => "unexpected byte "@ + byte_literal_text(
            byte,
        ) + " at offset "@ + spec_decimal(offset),
        ErrorView::InvalidIntegerLiteral { .. } => "invalid integer literal"@,
        ErrorView::Expected { expected, found } => "expected "@ + token_text(expected)
            + ", found "@ + token_text(found),
        ErrorView::ExpectedFunctionName { found } => "expected function name, found "@
            + token_text(found),
        ErrorView::ExpectedExpression { found } => "expected expression, found "@ + token_text(
            found,
        ),
        ErrorView::IntegerOutOfRange { value } => "integer constant "@ + spec_decimal_i64(
            value as int,
        ) + " is outside NCC's supported 32-bit int range"@,
        ErrorView::Backend { message } => message,
    }
}

impl CompileError {
    /// The human-readable explanation of the error.
    pub fn to_string(&self) -> (s: String)
        ensures
            s@ == error_message(self@),
    {
        let mut out = String::new();
        match self {
            CompileError::UnterminatedComment { offset } => {
                out.append("unterminated block comment at offset ");
                push_decimal(&mut out, *offset as u64);
            },
            CompileError::UnexpectedByte { byte, offset } => {
                out.append("unexpected byte ");
                push_byte_literal(&mut out, *byte);
                out.append(" at offset ");
                push_decimal(&mut out, *offset as u64);
            },
            CompileError::InvalidIntegerLiteral { .. } => {
                out.append("invalid integer literal");
            },
            CompileError::Expected { expected, found } => {
                out.append("expected ");
                expected.write_text(&mut out);
                out.append(", found ");
                found.write_text(&mut out);
            },
            CompileError::ExpectedFunctionName { found } => {
                out.append("expected function name, found ");
                found.write_text(&mut out);
            },
            CompileError::ExpectedExpression { found } => {
                out.append("expected expression, found ");
                found.write_text(&mut out);
            },
            CompileError::IntegerOutOfRange { value } => {
                out.append("integer constant ");
                push_decimal_i64(&mut out, *value);
                out.append(" is outside NCC's supported 32-bit int range");
            },
            CompileError::Backend { message } => {
                out.append(message.as_str());
            },
        }
        assert(out@ =~= error_message(self@));
        out
    }
}

} // verus!
