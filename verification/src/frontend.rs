//! The front end: syntax trees, and the recursive-descent parser that builds
//! them from source text.
use vstd::prelude::*;

use crate::error::{CompileError, ErrorView};
use crate::grammar::{self, binary, BinOp};
use crate::lexer::{self, lex};
use crate::token::{self, Token, TokenView};
use vstd::string::StringSliceAdditionalSpecFns;

verus! {

/// An integer expression.
#[derive(Debug, PartialEq, Eq)]
pub enum Expr {
    Integer(i64),
    Neg(Box<Expr>),
    Not(Box<Expr>),
    BitNot(Box<Expr>),
    Add(Box<Expr>, Box<Expr>),
    Sub(Box<Expr>, Box<Expr>),
    Mul(Box<Expr>, Box<Expr>),
    Div(Box<Expr>, Box<Expr>),
    Rem(Box<Expr>, Box<Expr>),
    Shl(Box<Expr>, Box<Expr>),
    Shr(Box<Expr>, Box<Expr>),
    Eq(Box<Expr>, Box<Expr>),
    Ne(Box<Expr>, Box<Expr>),
    Lt(Box<Expr>, Box<Expr>),
    Le(Box<Expr>, Box<Expr>),
    Gt(Box<Expr>, Box<Expr>),
    Ge(Box<Expr>, Box<Expr>),
    BitAnd(Box<Expr>, Box<Expr>),
    BitXor(Box<Expr>, Box<Expr>),
    BitOr(Box<Expr>, Box<Expr>),
}

impl Clone for Expr {
    /// A deep copy of the expression.
    fn clone(&self) -> (res: Self)
        ensures
            res == *self,
        decreases self,
    {
        match self {
            Expr::Integer(v) => Expr::Integer(*v),
            Expr::Neg(x) => Expr::Neg(Box::new((**x).clone())),
            Expr::Not(x) => Expr::Not(Box::new((**x).clone())),
            Expr::BitNot(x) => Expr::BitNot(Box::new((**x).clone())),
            Expr::Add(l, r) => Expr::Add(Box::new((**l).clone()), Box::new((**r).clone())),
            Expr::Sub(l, r) => Expr::Sub(Box::new((**l).clone()), Box::new((**r).clone())),
            Expr::Mul(l, r) => Expr::Mul(Box::new((**l).clone()), Box::new((**r).clone())),
            Expr::Div(l, r) => Expr::Div(Box::new((**l).clone()), Box::new((**r).clone())),
            Expr::Rem(l, r) => Expr::Rem(Box::new((**l).clone()), Box::new((**r).clone())),
            Expr::Shl(l, r) => Expr::Shl(Box::new((**l).clone()), Box::new((**r).clone())),
            Expr::Shr(l, r) => Expr::Shr(Box::new((**l).clone()), Box::new((**r).clone())),
            Expr::Eq(l, r) => Expr::Eq(Box::new((**l).clone()), Box::new((**r).clone())),
            Expr::Ne(l, r) => Expr::Ne(Box::new((**l).clone()), Box::new((**r).clone())),
            Expr::Lt(l, r) => Expr::Lt(Box::new((**l).clone()), Box::new((**r).clone())),
            Expr::Le(l, r) => Expr::Le(Box::new((**l).clone()), Box::new((**r).clone())),
            Expr::Gt(l, r) => Expr::Gt(Box::new((**l).clone()), Box::new((**r).clone())),
            Expr::Ge(l, r) => Expr::Ge(Box::new((**l).clone()), Box::new((**r).clone())),
            Expr::BitAnd(l, r) => Expr::BitAnd(Box::new((**l).clone()), Box::new((**r).clone())),
            Expr::BitXor(l, r) => Expr::BitXor(Box::new((**l).clone()), Box::new((**r).clone())),
            Expr::BitOr(l, r) => Expr::BitOr(Box::new((**l).clone()), Box::new((**r).clone())),
        }
    }
}

/// The number of nodes of `e`.
pub open spec fn expr_size(e: Expr) -> nat
    decreases e,
{
    match e {
        Expr::Integer(_) => 1,
        Expr::Neg(x) => 1 + expr_size(*x),
        Expr::Not(x) => 1 + expr_size(*x),
        Expr::BitNot(x) => 1 + expr_size(*x),
        Expr::Add(l, r) => 1 + expr_size(*l) + expr_size(*r),
        Expr::Sub(l, r) => 1 + expr_size(*l) + expr_size(*r),
        Expr::Mul(l, r) => 1 + expr_size(*l) + expr_size(*r),
        Expr::Div(l, r) => 1 + expr_size(*l) + expr_size(*r),
        Expr::Rem(l, r) => 1 + expr_size(*l) + expr_size(*r),
        Expr::Shl(l, r) => 1 + expr_size(*l) + expr_size(*r),
        Expr::Shr(l, r) => 1 + expr_size(*l) + expr_size(*r),
        Expr::Eq(l, r) => 1 + expr_size(*l) + expr_size(*r),
        Expr::Ne(l, r) => 1 + expr_size(*l) + expr_size(*r),
        Expr::Lt(l, r) => 1 + expr_size(*l) + expr_size(*r),
        Expr::Le(l, r) => 1 + expr_size(*l) + expr_size(*r),
        Expr::Gt(l, r) => 1 + expr_size(*l) + expr_size(*r),
        Expr::Ge(l, r) => 1 + expr_size(*l) + expr_size(*r),
        Expr::BitAnd(l, r) => 1 + expr_size(*l) + expr_size(*r),
        Expr::BitXor(l, r) => 1 + expr_size(*l) + expr_size(*r),
        Expr::BitOr(l, r) => 1 + expr_size(*l) + expr_size(*r),
    }
}

/// The operands of a binary expression, left first; `None` for the others.
pub open spec fn operands(e: Expr) -> Option<(Expr, Expr)> {
    match e {
        Expr::Add(l, r) => Some((*l, *r)),
        Expr::Sub(l, r) => Some((*l, *r)),
        Expr::Mul(l, r) => Some((*l, *r)),
        Expr::Div(l, r) => Some((*l, *r)),
        Expr::Rem(l, r) => Some((*l, *r)),
        Expr::Shl(l, r) => Some((*l, *r)),
        Expr::Shr(l, r) => Some((*l, *r)),
        Expr::Eq(l, r) => Some((*l, *r)),
        Expr::Ne(l, r) => Some((*l, *r)),
        Expr::Lt(l, r) => Some((*l, *r)),
        Expr::Le(l, r) => Some((*l, *r)),
        Expr::Gt(l, r) => Some((*l, *r)),
        Expr::Ge(l, r) => Some((*l, *r)),
        Expr::BitAnd(l, r) => Some((*l, *r)),
        Expr::BitXor(l, r) => Some((*l, *r)),
        Expr::BitOr(l, r) => Some((*l, *r)),
        _ => None,
    }
}

/// The operands of an expression have fewer nodes than it.
pub proof fn lemma_operands_smaller(e: Expr)
    ensures
        operands(e) matches Some((l, r)) ==> expr_size(l) < expr_size(e) && expr_size(r) < expr_size(e),
{
}

/// Every expression has at least one node.
pub proof fn lemma_size_positive(e: Expr)
    ensures
        expr_size(e) >= 1,
{
}

/// A function `int name(void) { return return_value; }`.
#[derive(Debug)]
pub struct Function {
    pub name: String,
    pub return_value: Expr,
}

/// Parses a source file. The result is exactly `parse_source` of its bytes:
/// the lexer's first error, else the parser's first error, else the
/// function's name and returned expression.
pub fn parse(source: &str) -> (r: Result<Function, CompileError>)
    ensures
        match grammar::parse_source(source.spec_bytes()) {
            Ok((name, e)) => r is Ok && r->Ok_0.name@ == name && r->Ok_0.return_value == e,
            Err(err) => r is Err && r->Err_0@ == err,
        },
{
    let tokens = match lex(source) {
        Ok(tokens) => tokens,
        Err(err) => return Err(err),
    };
    proof {
        lexer::lemma_lex_ends_with_eof(source.spec_bytes(), 0);
    }
    let mut p = Parser { tokens, pos: 0 };
    if let Err(err) = p.expect(Token::Int) {
        return Err(err);
    }
    let name = match p.bump() {
        Token::Ident(name) => name,
        other => return Err(CompileError::ExpectedFunctionName { found: other }),
    };
    if let Err(err) = p.expect(Token::LParen) {
        return Err(err);
    }
    if let Err(err) = p.expect(Token::Void) {
        return Err(err);
    }
    if let Err(err) = p.expect(Token::RParen) {
        return Err(err);
    }
    if let Err(err) = p.expect(Token::LBrace) {
        return Err(err);
    }
    if let Err(err) = p.expect(Token::Return) {
        return Err(err);
    }
    let return_value = match p.parse_expr() {
        Ok(e) => e,
        Err(err) => return Err(err),
    };
    if let Err(err) = p.expect(Token::Semi) {
        return Err(err);
    }
    if let Err(err) = p.expect(Token::RBrace) {
        return Err(err);
    }
    if let Err(err) = p.expect(Token::Eof) {
        return Err(err);
    }
    Ok(Function { name, return_value })
}

/// A recursive-descent parser over the tokens of a source file.
struct Parser {
    tokens: Vec<Token>,
    pos: usize,
}

impl Parser {
    spec fn ts(&self) -> Seq<TokenView> {
        token::token_views(self.tokens@)
    }

    /// The tokens end in `Eof` and the position is on one of them.
    spec fn wf(&self) -> bool {
        &&& self.tokens@.len() > 0
        &&& self.ts().last() == TokenView::Eof
        &&& self.pos < self.tokens@.len()
    }

    /// `r` is what the grammar gives: on success the parser stands just after
    /// the parsed expression, further on than `before`; on failure it stands
    /// just after the token that was refused, at `refused`, also further on
    /// than `before`.
    spec fn outcome(
        before: Parser,
        after: Parser,
        expected: Result<(Expr, int), ErrorView>,
        refused: int,
        r: Result<Expr, CompileError>,
    ) -> bool {
        &&& after.tokens@ == before.tokens@
        &&& match expected {
            Ok((e, q)) => {
                &&& r == Ok::<Expr, CompileError>(e)
                &&& after.pos == q
                &&& after.wf()
                &&& before.pos < after.pos
            },
            Err(err) => {
                &&& r is Err
                &&& r->Err_0@ == err
                &&& after.pos == refused + 1
                &&& before.pos < after.pos <= after.tokens@.len()
            },
        }
    }

    fn bump(&mut self) -> (t: Token)
        requires
            old(self).pos < old(self).tokens@.len(),
        ensures
            t@ == old(self).ts()[old(self).pos as int],
            final(self).tokens@ == old(self).tokens@,
            final(self).pos == old(self).pos + 1,
            old(self).wf() && t@ != TokenView::Eof ==> final(self).wf(),
    {
        let t = self.tokens[self.pos].duplicate();
        let len = self.tokens.len();
        self.pos = self.pos + 1;
        assert(self.pos <= len);
        t
    }

    fn peek(&self) -> (t: &Token)
        requires
            self.pos < self.tokens@.len(),
        ensures
            t@ == self.ts()[self.pos as int],
    {
        &self.tokens[self.pos]
    }

    fn expect(&mut self, expected: Token) -> (r: Result<(), CompileError>)
        requires
            old(self).pos < old(self).tokens@.len(),
        ensures
            final(self).tokens@ == old(self).tokens@,
            final(self).pos == old(self).pos + 1,
            old(self).ts()[old(self).pos as int] == expected@ ==> r is Ok && (old(self).wf()
                && expected@ != TokenView::Eof ==> final(self).wf()),
            old(self).ts()[old(self).pos as int] != expected@ ==> r is Err && r->Err_0@
                == (ErrorView::Expected {
                expected: expected@,
                found: old(self).ts()[old(self).pos as int],
            }),
    {
        let actual = self.bump();
        if !actual.same(&expected) {
            return Err(CompileError::Expected { expected, found: actual });
        }
        Ok(())
    }

    fn parse_expr(&mut self) -> (r: Result<Expr, CompileError>)
        requires
            old(self).wf(),
        ensures
            Self::outcome(
                *old(self),
                *final(self),
                grammar::parse_level(old(self).ts(), grammar::expr_level(), old(self).pos as int),
                grammar::refused_at(old(self).ts(), grammar::expr_level(), old(self).pos as int),
                r,
            ),
        decreases old(self).tokens@.len() - old(self).pos, 10nat,
    {
        self.parse_bit_or()
    }

    fn parse_bit_or(&mut self) -> (r: Result<Expr, CompileError>)
        requires
            old(self).wf(),
        ensures
            Self::outcome(
                *old(self),
                *final(self),
                grammar::parse_level(old(self).ts(), 8, old(self).pos as int),
                grammar::refused_at(old(self).ts(), 8, old(self).pos as int),
                r,
            ),
        decreases old(self).tokens@.len() - old(self).pos, 9nat,
    {
        let ghost ts = self.ts();
        let ghost toks = self.tokens@;
        let ghost p0 = self.pos as int;
        let mut e = match self.parse_bit_xor() {
            Ok(e) => e,
            Err(err) => return Err(err),
        };
        while matches!(self.peek(), Token::Pipe)
            invariant
                self.wf(),
                self.tokens@ == toks,
                ts == token::token_views(toks),
                p0 < self.pos,
                p0 == old(self).pos,
                toks == old(self).tokens@,
                grammar::parse_level(ts, 8, p0) == grammar::parse_rest(ts, 8, e, self.pos as int),
                grammar::refused_at(ts, 8, p0) == grammar::refused_in_rest(ts, 8, e, self.pos as int),
            decreases self.tokens@.len() - self.pos,
        {
            self.bump();
            let rhs = match self.parse_bit_xor() {
                Ok(rhs) => rhs,
                Err(err) => return Err(err),
            };
            e = binary(BinOp::BitOr, e, rhs);
        }
        Ok(e)
    }

    fn parse_bit_xor(&mut self) -> (r: Result<Expr, CompileError>)
        requires
            old(self).wf(),
        ensures
            Self::outcome(
                *old(self),
                *final(self),
                grammar::parse_level(old(self).ts(), 7, old(self).pos as int),
                grammar::refused_at(old(self).ts(), 7, old(self).pos as int),
                r,
            ),
        decreases old(self).tokens@.len() - old(self).pos, 8nat,
    {
        let ghost ts = self.ts();
        let ghost toks = self.tokens@;
        let ghost p0 = self.pos as int;
        let mut e = match self.parse_bit_and() {
            Ok(e) => e,
            Err(err) => return Err(err),
        };
        while matches!(self.peek(), Token::Caret)
            invariant
                self.wf(),
                self.tokens@ == toks,
                ts == token::token_views(toks),
                p0 < self.pos,
                p0 == old(self).pos,
                toks == old(self).tokens@,
                grammar::parse_level(ts, 7, p0) == grammar::parse_rest(ts, 7, e, self.pos as int),
                grammar::refused_at(ts, 7, p0) == grammar::refused_in_rest(ts, 7, e, self.pos as int),
            decreases self.tokens@.len() - self.pos,
        {
            self.bump();
            let rhs = match self.parse_bit_and() {
                Ok(rhs) => rhs,
                Err(err) => return Err(err),
            };
            e = binary(BinOp::BitXor, e, rhs);
        }
        Ok(e)
    }

    fn parse_bit_and(&mut self) -> (r: Result<Expr, CompileError>)
        requires
            old(self).wf(),
        ensures
            Self::outcome(
                *old(self),
                *final(self),
                grammar::parse_level(old(self).ts(), 6, old(self).pos as int),
                grammar::refused_at(old(self).ts(), 6, old(self).pos as int),
                r,
            ),
        decreases old(self).tokens@.len() - old(self).pos, 7nat,
    {
        let ghost ts = self.ts();
        let ghost toks = self.tokens@;
        let ghost p0 = self.pos as int;
        let mut e = match self.parse_equality() {
            Ok(e) => e,
            Err(err) => return Err(err),
        };
        while matches!(self.peek(), Token::Amp)
            invariant
                self.wf(),
                self.tokens@ == toks,
                ts == token::token_views(toks),
                p0 < self.pos,
                p0 == old(self).pos,
                toks == old(self).tokens@,
                grammar::parse_level(ts, 6, p0) == grammar::parse_rest(ts, 6, e, self.pos as int),
                grammar::refused_at(ts, 6, p0) == grammar::refused_in_rest(ts, 6, e, self.pos as int),
            decreases self.tokens@.len() - self.pos,
        {
            self.bump();
            let rhs = match self.parse_equality() {
                Ok(rhs) => rhs,
                Err(err) => return Err(err),
            };
            e = binary(BinOp::BitAnd, e, rhs);
        }
        Ok(e)
    }

    fn parse_equality(&mut self) -> (r: Result<Expr, CompileError>)
        requires
            old(self).wf(),
        ensures
            Self::outcome(
                *old(self),
                *final(self),
                grammar::parse_level(old(self).ts(), 5, old(self).pos as int),
                grammar::refused_at(old(self).ts(), 5, old(self).pos as int),
                r,
            ),
        decreases old(self).tokens@.len() - old(self).pos, 6nat,
    {
        let ghost ts = self.ts();
        let ghost toks = self.tokens@;
        let ghost p0 = self.pos as int;
        let mut e = match self.parse_relational() {
            Ok(e) => e,
            Err(err) => return Err(err),
        };
        loop
            invariant
                self.wf(),
                self.tokens@ == toks,
                ts == token::token_views(toks),
                p0 < self.pos,
                p0 == old(self).pos,
                toks == old(self).tokens@,
                grammar::parse_level(ts, 5, p0) == grammar::parse_rest(ts, 5, e, self.pos as int),
                grammar::refused_at(ts, 5, p0) == grammar::refused_in_rest(ts, 5, e, self.pos as int),
            ensures
                grammar::binary_op(5, grammar::tok(ts, self.pos as int)) is None,
            decreases self.tokens@.len() - self.pos,
        {
            let op = match self.peek() {
                Token::EqEq => BinOp::Eq,
                Token::NotEq => BinOp::Ne,
                _ => break,
            };
            self.bump();
            let rhs = match self.parse_relational() {
                Ok(rhs) => rhs,
                Err(err) => return Err(err),
            };
            e = binary(op, e, rhs);
        }
        Ok(e)
    }

    fn parse_relational(&mut self) -> (r: Result<Expr, CompileError>)
        requires
            old(self).wf(),
        ensures
            Self::outcome(
                *old(self),
                *final(self),
                grammar::parse_level(old(self).ts(), 4, old(self).pos as int),
                grammar::refused_at(old(self).ts(), 4, old(self).pos as int),
                r,
            ),
        decreases old(self).tokens@.len() - old(self).pos, 5nat,
    {
        let ghost ts = self.ts();
        let ghost toks = self.tokens@;
        let ghost p0 = self.pos as int;
        let mut e = match self.parse_shift() {
            Ok(e) => e,
            Err(err) => return Err(err),
        };
        loop
            invariant
                self.wf(),
                self.tokens@ == toks,
                ts == token::token_views(toks),
                p0 < self.pos,
                p0 == old(self).pos,
                toks == old(self).tokens@,
                grammar::parse_level(ts, 4, p0) == grammar::parse_rest(ts, 4, e, self.pos as int),
                grammar::refused_at(ts, 4, p0) == grammar::refused_in_rest(ts, 4, e, self.pos as int),
            ensures
                grammar::binary_op(4, grammar::tok(ts, self.pos as int)) is None,
            decreases self.tokens@.len() - self.pos,
        {
            let op = match self.peek() {
                Token::Lt => BinOp::Lt,
                Token::Le => BinOp::Le,
                Token::Gt => BinOp::Gt,
                Token::Ge => BinOp::Ge,
                _ => break,
            };
            self.bump();
            let rhs = match self.parse_shift() {
                Ok(rhs) => rhs,
                Err(err) => return Err(err),
            };
            e = binary(op, e, rhs);
        }
        Ok(e)
    }

    fn parse_shift(&mut self) -> (r: Result<Expr, CompileError>)
        requires
            old(self).wf(),
        ensures
            Self::outcome(
                *old(self),
                *final(self),
                grammar::parse_level(old(self).ts(), 3, old(self).pos as int),
                grammar::refused_at(old(self).ts(), 3, old(self).pos as int),
                r,
            ),
        decreases old(self).tokens@.len() - old(self).pos, 4nat,
    {
        let ghost ts = self.ts();
        let ghost toks = self.tokens@;
        let ghost p0 = self.pos as int;
        let mut e = match self.parse_additive() {
            Ok(e) => e,
            Err(err) => return Err(err),
        };
        loop
            invariant
                self.wf(),
                self.tokens@ == toks,
                ts == token::token_views(toks),
                p0 < self.pos,
                p0 == old(self).pos,
                toks == old(self).tokens@,
                grammar::parse_level(ts, 3, p0) == grammar::parse_rest(ts, 3, e, self.pos as int),
                grammar::refused_at(ts, 3, p0) == grammar::refused_in_rest(ts, 3, e, self.pos as int),
            ensures
                grammar::binary_op(3, grammar::tok(ts, self.pos as int)) is None,
            decreases self.tokens@.len() - self.pos,
        {
            let op = match self.peek() {
                Token::Shl => BinOp::Shl,
                Token::Shr => BinOp::Shr,
                _ => break,
            };
            self.bump();
            let rhs = match self.parse_additive() {
                Ok(rhs) => rhs,
                Err(err) => return Err(err),
            };
            e = binary(op, e, rhs);
        }
        Ok(e)
    }

    fn parse_additive(&mut self) -> (r: Result<Expr, CompileError>)
        requires
            old(self).wf(),
        ensures
            Self::outcome(
                *old(self),
                *final(self),
                grammar::parse_level(old(self).ts(), 2, old(self).pos as int),
                grammar::refused_at(old(self).ts(), 2, old(self).pos as int),
                r,
            ),
        decreases old(self).tokens@.len() - old(self).pos, 3nat,
    {
        let ghost ts = self.ts();
        let ghost toks = self.tokens@;
        let ghost p0 = self.pos as int;
        let mut e = match self.parse_multiplicative() {
            Ok(e) => e,
            Err(err) => return Err(err),
        };
        loop
            invariant
                self.wf(),
                self.tokens@ == toks,
                ts == token::token_views(toks),
                p0 < self.pos,
                p0 == old(self).pos,
                toks == old(self).tokens@,
                grammar::parse_level(ts, 2, p0) == grammar::parse_rest(ts, 2, e, self.pos as int),
                grammar::refused_at(ts, 2, p0) == grammar::refused_in_rest(ts, 2, e, self.pos as int),
            ensures
                grammar::binary_op(2, grammar::tok(ts, self.pos as int)) is None,
            decreases self.tokens@.len() - self.pos,
        {
            let op = match self.peek() {
                Token::Plus => BinOp::Add,
                Token::Minus => BinOp::Sub,
                _ => break,
            };
            self.bump();
            let rhs = match self.parse_multiplicative() {
                Ok(rhs) => rhs,
                Err(err) => return Err(err),
            };
            e = binary(op, e, rhs);
        }
        Ok(e)
    }

    fn parse_multiplicative(&mut self) -> (r: Result<Expr, CompileError>)
        requires
            old(self).wf(),
        ensures
            Self::outcome(
                *old(self),
                *final(self),
                grammar::parse_level(old(self).ts(), 1, old(self).pos as int),
                grammar::refused_at(old(self).ts(), 1, old(self).pos as int),
                r,
            ),
        decreases old(self).tokens@.len() - old(self).pos, 2nat,
    {
        let ghost ts = self.ts();
        let ghost toks = self.tokens@;
        let ghost p0 = self.pos as int;
        let mut e = match self.parse_unary() {
            Ok(e) => e,
            Err(err) => return Err(err),
        };
        loop
            invariant
                self.wf(),
                self.tokens@ == toks,
                ts == token::token_views(toks),
                p0 < self.pos,
                p0 == old(self).pos,
                toks == old(self).tokens@,
                grammar::parse_level(ts, 1, p0) == grammar::parse_rest(ts, 1, e, self.pos as int),
                grammar::refused_at(ts, 1, p0) == grammar::refused_in_rest(ts, 1, e, self.pos as int),
            ensures
                grammar::binary_op(1, grammar::tok(ts, self.pos as int)) is None,
            decreases self.tokens@.len() - self.pos,
        {
            let op = match self.peek() {
                Token::Star => BinOp::Mul,
                Token::Slash => BinOp::Div,
                Token::Percent => BinOp::Rem,
                _ => break,
            };
            self.bump();
            let rhs = match self.parse_unary() {
                Ok(rhs) => rhs,
                Err(err) => return Err(err),
            };
            e = binary(op, e, rhs);
        }
        Ok(e)
    }

    fn parse_unary(&mut self) -> (r: Result<Expr, CompileError>)
        requires
            old(self).wf(),
        ensures
            Self::outcome(
                *old(self),
                *final(self),
                grammar::parse_level(old(self).ts(), 0, old(self).pos as int),
                grammar::refused_at(old(self).ts(), 0, old(self).pos as int),
                r,
            ),
        decreases old(self).tokens@.len() - old(self).pos, 1nat,
    {
        match self.peek() {
            Token::Plus => {
                self.bump();
                self.parse_unary()
            },
            Token::Minus => {
                self.bump();
                match self.parse_unary() {
                    Ok(x) => Ok(Expr::Neg(Box::new(x))),
                    Err(err) => Err(err),
                }
            },
            Token::Bang => {
                self.bump();
                match self.parse_unary() {
                    Ok(x) => Ok(Expr::Not(Box::new(x))),
                    Err(err) => Err(err),
                }
            },
            Token::Tilde => {
                self.bump();
                match self.parse_unary() {
                    Ok(x) => Ok(Expr::BitNot(Box::new(x))),
                    Err(err) => Err(err),
                }
            },
            _ => self.parse_primary(),
        }
    }

    fn parse_primary(&mut self) -> (r: Result<Expr, CompileError>)
        requires
            old(self).wf(),
        ensures
            Self::outcome(
                *old(self),
                *final(self),
                grammar::parse_primary(old(self).ts(), old(self).pos as int),
                grammar::refused_in_primary(old(self).ts(), old(self).pos as int),
                r,
            ),
        decreases old(self).tokens@.len() - old(self).pos, 0nat,
    {
        match self.bump() {
            Token::Number(v) => Ok(Expr::Integer(v)),
            Token::LParen => {
                let e = match self.parse_expr() {
                    Ok(e) => e,
                    Err(err) => return Err(err),
                };
                match self.expect(Token::RParen) {
                    Ok(()) => Ok(e),
                    Err(err) => Err(err),
                }
            },
            other => Err(CompileError::ExpectedExpression { found: other }),
        }
    }
}

} // verus!
