//! The grammar of the accepted C subset, as functions from token sequences
//! to syntax trees:
//!
//! ```text
//! program        := "int" IDENT "(" "void" ")" "{" "return" expr ";" "}" EOF
//! expr           := level 8
//! level n (n>=1) := level n-1 { op_n level n-1 }      (left associative)
//! level 0        := ("+" | "-" | "!" | "~") level 0 | primary
//! primary        := NUMBER | "(" expr ")"
//! ```
//!
//! with the binary operators of each level, from the tightest:
//! 1: `* / %`, 2: `+ -`, 3: `<< >>`, 4: `< <= > >=`, 5: `== !=`, 6: `&`,
//! 7: `^`, 8: `|` (the precedence of C).
use vstd::prelude::*;

use crate::error::ErrorView;
use crate::frontend::Expr;
use crate::lexer::lex_bytes;
use crate::token::TokenView;

verus! {

/// A binary operator of the expression language.
#[derive(Clone, Copy, Debug, PartialEq, Eq)]
pub enum BinOp {
    Mul,
    Div,
    Rem,
    Add,
    Sub,
    Shl,
    Shr,
    Lt,
    Le,
    Gt,
    Ge,
    Eq,
    Ne,
    BitAnd,
    BitXor,
    BitOr,
}

/// The syntax tree of `l op r`.
pub open spec fn mk_binary(op: BinOp, l: Expr, r: Expr) -> Expr {
    match op {
        BinOp::Mul => Expr::Mul(Box::new(l), Box::new(r)),
        BinOp::Div => Expr::Div(Box::new(l), Box::new(r)),
        BinOp::Rem => Expr::Rem(Box::new(l), Box::new(r)),
        BinOp::Add => Expr::Add(Box::new(l), Box::new(r)),
        BinOp::Sub => Expr::Sub(Box::new(l), Box::new(r)),
        BinOp::Shl => Expr::Shl(Box::new(l), Box::new(r)),
        BinOp::Shr => Expr::Shr(Box::new(l), Box::new(r)),
        BinOp::Lt => Expr::Lt(Box::new(l), Box::new(r)),
        BinOp::Le => Expr::Le(Box::new(l), Box::new(r)),
        BinOp::Gt => Expr::Gt(Box::new(l), Box::new(r)),
        BinOp::Ge => Expr::Ge(Box::new(l), Box::new(r)),
        BinOp::Eq => Expr::Eq(Box::new(l), Box::new(r)),
        BinOp::Ne => Expr::Ne(Box::new(l), Box::new(r)),
        BinOp::BitAnd => Expr::BitAnd(Box::new(l), Box::new(r)),
        BinOp::BitXor => Expr::BitXor(Box::new(l), Box::new(r)),
        BinOp::BitOr => Expr::BitOr(Box::new(l), Box::new(r)),
    }
}

/// Builds the syntax tree of `l op r`.
pub fn binary(op: BinOp, l: Expr, r: Expr) -> (e: Expr)
    ensures
        e == mk_binary(op, l, r),
{
    match op {
        BinOp::Mul => Expr::Mul(Box::new(l), Box::new(r)),
        BinOp::Div => Expr::Div(Box::new(l), Box::new(r)),
        BinOp::Rem => Expr::Rem(Box::new(l), Box::new(r)),
        BinOp::Add => Expr::Add(Box::new(l), Box::new(r)),
        BinOp::Sub => Expr::Sub(Box::new(l), Box::new(r)),
        BinOp::Shl => Expr::Shl(Box::new(l), Box::new(r)),
        BinOp::Shr => Expr::Shr(Box::new(l), Box::new(r)),
        BinOp::Lt => Expr::Lt(Box::new(l), Box::new(r)),
        BinOp::Le => Expr::Le(Box::new(l), Box::new(r)),
        BinOp::Gt => Expr::Gt(Box::new(l), Box::new(r)),
        BinOp::Ge => Expr::Ge(Box::new(l), Box::new(r)),
        BinOp::Eq => Expr::Eq(Box::new(l), Box::new(r)),
        BinOp::Ne => Expr::Ne(Box::new(l), Box::new(r)),
        BinOp::BitAnd => Expr::BitAnd(Box::new(l), Box::new(r)),
        BinOp::BitXor => Expr::BitXor(Box::new(l), Box::new(r)),
        BinOp::BitOr => Expr::BitOr(Box::new(l), Box::new(r)),
    }
}

/// The precedence level of a whole expression.
pub open spec fn expr_level() -> nat {
    8
}

/// The token at position `i`; past either end of the input, `Eof`.
pub open spec fn tok(ts: Seq<TokenView>, i: int) -> TokenView {
    if 0 <= i < ts.len() {
        ts[i]
    } else {
        TokenView::Eof
    }
}

/// The binary operator that `t` stands for at precedence level `level`, if any.
pub open spec fn binary_op(level: nat, t: TokenView) -> Option<BinOp> {
    if level == 1 {
        match t {
            TokenView::Star => Some(BinOp::Mul),
            TokenView::Slash => Some(BinOp::Div),
            TokenView::Percent => Some(BinOp::Rem),
            _ => None,
        }
    } else if level == 2 {
        match t {
            TokenView::Plus => Some(BinOp::Add),
            TokenView::Minus => Some(BinOp::Sub),
            _ => None,
        }
    } else if level == 3 {
        match t {
            TokenView::Shl => Some(BinOp::Shl),
            TokenView::Shr => Some(BinOp::Shr),
            _ => None,
        }
    } else if level == 4 {
        match t {
            TokenView::Lt => Some(BinOp::Lt),
            TokenView::Le => Some(BinOp::Le),
            TokenView::Gt => Some(BinOp::Gt),
            TokenView::Ge => Some(BinOp::Ge),
            _ => None,
        }
    } else if level == 5 {
        match t {
            TokenView::EqEq => Some(BinOp::Eq),
            TokenView::NotEq => Some(BinOp::Ne),
            _ => None,
        }
    } else if level == 6 {
        match t {
            TokenView::Amp => Some(BinOp::BitAnd),
            _ => None,
        }
    } else if level == 7 {
        match t {
            TokenView::Caret => Some(BinOp::BitXor),
            _ => None,
        }
    } else if level == 8 {
        match t {
            TokenView::Pipe => Some(BinOp::BitOr),
            _ => None,
        }
    } else {
        None
    }
}

/// Parses an expression of precedence level `level` (0: unary) starting at
/// position `p`: the syntax tree and the position after it, or the error.
///
/// The guards `p < q <= ts.len()` hold of every result (see
/// `lemma_parse_progress`); they only make the recursion visibly terminate.
pub open spec fn parse_level(ts: Seq<TokenView>, level: nat, p: int) -> Result<
    (Expr, int),
    ErrorView,
>
    decreases ts.len() - p, level + 1,
{
    if level == 0 {
        match tok(ts, p) {
            TokenView::Plus => parse_level(ts, 0, p + 1),
            TokenView::Minus => match parse_level(ts, 0, p + 1) {
                Ok((x, q)) => Ok((Expr::Neg(Box::new(x)), q)),
                Err(err) => Err(err),
            },
            TokenView::Bang => match parse_level(ts, 0, p + 1) {
                Ok((x, q)) => Ok((Expr::Not(Box::new(x)), q)),
                Err(err) => Err(err),
            },
            TokenView::Tilde => match parse_level(ts, 0, p + 1) {
                Ok((x, q)) => Ok((Expr::BitNot(Box::new(x)), q)),
                Err(err) => Err(err),
            },
            _ => parse_primary(ts, p),
        }
    } else {
        match parse_level(ts, (level - 1) as nat, p) {
            Ok((e, q)) => if p < q <= ts.len() {
                parse_rest(ts, level, e, q)
            } else {
                Ok((e, q))
            },
            Err(err) => Err(err),
        }
    }
}

/// Continues an expression of level `level >= 1` whose leftmost operands
/// parsed to `e`, at position `q`: folds further `op_level operand` pairs to the left.
pub open spec fn parse_rest(ts: Seq<TokenView>, level: nat, e: Expr, q: int) -> Result<
    (Expr, int),
    ErrorView,
>
    decreases ts.len() - q, 0nat,
{
    match binary_op(level, tok(ts, q)) {
        None => Ok((e, q)),
        Some(op) => match parse_level(ts, (level - 1) as nat, q + 1) {
            Ok((r, q2)) => if q < q2 <= ts.len() {
                parse_rest(ts, level, mk_binary(op, e, r), q2)
            } else {
                Ok((mk_binary(op, e, r), q2))
            },
            Err(err) => Err(err),
        },
    }
}

/// A number, or a parenthesized expression, at position `p`.
pub open spec fn parse_primary(ts: Seq<TokenView>, p: int) -> Result<(Expr, int), ErrorView>
    decreases ts.len() - p, 0nat,
{
    match tok(ts, p) {
        TokenView::Number(v) => Ok((Expr::Integer(v), p + 1)),
        TokenView::LParen => match parse_level(ts, expr_level(), p + 1) {
            Ok((e, q)) => if tok(ts, q) == TokenView::RParen {
                Ok((e, q + 1))
            } else {
                Err(ErrorView::Expected { expected: TokenView::RParen, found: tok(ts, q) })
            },
            Err(err) => Err(err),
        },
        other => Err(ErrorView::ExpectedExpression { found: other }),
    }
}

/// Where a parse of level `level` from `p` that fails stops: the position
/// of the token it refuses (of use where `parse_level(ts, level, p)` is an
/// error).
pub open spec fn refused_at(ts: Seq<TokenView>, level: nat, p: int) -> int
    decreases ts.len() - p, level + 1,
{
    if level == 0 {
        match tok(ts, p) {
            TokenView::Plus => refused_at(ts, 0, p + 1),
            TokenView::Minus => refused_at(ts, 0, p + 1),
            TokenView::Bang => refused_at(ts, 0, p + 1),
            TokenView::Tilde => refused_at(ts, 0, p + 1),
            _ => refused_in_primary(ts, p),
        }
    } else {
        match parse_level(ts, (level - 1) as nat, p) {
            Ok((e, q)) => if p < q <= ts.len() {
                refused_in_rest(ts, level, e, q)
            } else {
                q
            },
            Err(_) => refused_at(ts, (level - 1) as nat, p),
        }
    }
}

/// Where continuing an expression of level `level` at `q` stops, if it fails
/// (see `parse_rest`).
pub open spec fn refused_in_rest(ts: Seq<TokenView>, level: nat, e: Expr, q: int) -> int
    decreases ts.len() - q, 0nat,
{
    match binary_op(level, tok(ts, q)) {
        None => q,
        Some(op) => match parse_level(ts, (level - 1) as nat, q + 1) {
            Ok((r, q2)) => if q < q2 <= ts.len() {
                refused_in_rest(ts, level, mk_binary(op, e, r), q2)
            } else {
                q2
            },
            Err(_) => refused_at(ts, (level - 1) as nat, q + 1),
        },
    }
}

/// Where a primary expression at `p` stops, if it fails: at a token that
/// cannot start one, or at the token that should close its parenthesis.
pub open spec fn refused_in_primary(ts: Seq<TokenView>, p: int) -> int
    decreases ts.len() - p, 0nat,
{
    match tok(ts, p) {
        TokenView::LParen => match parse_level(ts, expr_level(), p + 1) {
            Ok((_, q)) => q,
            Err(_) => refused_at(ts, expr_level(), p + 1),
        },
        _ => p,
    }
}

/// Every successful parse consumes at least one token, ends within the input,
/// and its last token is not `Eof`. So the guards `p < q <= ts.len()` in
/// `parse_level` and `parse_rest` always hold.
pub proof fn lemma_parse_progress(ts: Seq<TokenView>, level: nat, p: int)
    ensures
        parse_level(ts, level, p) matches Ok((_, q)) ==> p < q <= ts.len() && tok(ts, q - 1)
            != TokenView::Eof,
    decreases ts.len() - p, level + 1,
{
    if level == 0 {
        match tok(ts, p) {
            TokenView::Plus => lemma_parse_progress(ts, 0, p + 1),
            TokenView::Minus => lemma_parse_progress(ts, 0, p + 1),
            TokenView::Bang => lemma_parse_progress(ts, 0, p + 1),
            TokenView::Tilde => lemma_parse_progress(ts, 0, p + 1),
            _ => lemma_primary_progress(ts, p),
        }
    } else {
        lemma_parse_progress(ts, (level - 1) as nat, p);
        if let Ok((e, q)) = parse_level(ts, (level - 1) as nat, p) {
            lemma_rest_progress(ts, level, e, q);
        }
    }
}

/// Continuing a parse never moves backwards, and what it consumes last is not `Eof`.
pub proof fn lemma_rest_progress(ts: Seq<TokenView>, level: nat, e: Expr, q0: int)
    requires
        0 < q0 <= ts.len(),
        tok(ts, q0 - 1) != TokenView::Eof,
    ensures
        parse_rest(ts, level, e, q0) matches Ok((_, q)) ==> q0 <= q <= ts.len() && tok(ts, q - 1)
            != TokenView::Eof,
    decreases ts.len() - q0, 0nat,
{
    if let Some(op) = binary_op(level, tok(ts, q0)) {
        lemma_parse_progress(ts, (level - 1) as nat, q0 + 1);
        if let Ok((r, q2)) = parse_level(ts, (level - 1) as nat, q0 + 1) {
            lemma_rest_progress(ts, level, mk_binary(op, e, r), q2);
        }
    }
}

/// A primary expression consumes at least its first token.
pub proof fn lemma_primary_progress(ts: Seq<TokenView>, p: int)
    ensures
        parse_primary(ts, p) matches Ok((_, q)) ==> p < q <= ts.len() && tok(ts, q - 1)
            != TokenView::Eof,
    decreases ts.len() - p, 0nat,
{
    if tok(ts, p) == TokenView::LParen {
        lemma_parse_progress(ts, expr_level(), p + 1);
    }
}

/// The error of wanting `want` at position `p`.
pub open spec fn expected_at(ts: Seq<TokenView>, p: int, want: TokenView) -> ErrorView {
    ErrorView::Expected { expected: want, found: tok(ts, p) }
}

/// A whole program: the name of its function and the returned expression.
pub open spec fn parse_tokens(ts: Seq<TokenView>) -> Result<(Seq<char>, Expr), ErrorView> {
    if tok(ts, 0) != TokenView::Int {
        Err(expected_at(ts, 0, TokenView::Int))
    } else if !(tok(ts, 1) is Ident) {
        Err(ErrorView::ExpectedFunctionName { found: tok(ts, 1) })
    } else if tok(ts, 2) != TokenView::LParen {
        Err(expected_at(ts, 2, TokenView::LParen))
    } else if tok(ts, 3) != TokenView::Void {
        Err(expected_at(ts, 3, TokenView::Void))
    } else if tok(ts, 4) != TokenView::RParen {
        Err(expected_at(ts, 4, TokenView::RParen))
    } else if tok(ts, 5) != TokenView::LBrace {
        Err(expected_at(ts, 5, TokenView::LBrace))
    } else if tok(ts, 6) != TokenView::Return {
        Err(expected_at(ts, 6, TokenView::Return))
    } else {
        match parse_level(ts, expr_level(), 7) {
            Err(err) => Err(err),
            Ok((e, q)) => if tok(ts, q) != TokenView::Semi {
                Err(expected_at(ts, q, TokenView::Semi))
            } else if tok(ts, q + 1) != TokenView::RBrace {
                Err(expected_at(ts, q + 1, TokenView::RBrace))
            } else if tok(ts, q + 2) != TokenView::Eof {
                Err(expected_at(ts, q + 2, TokenView::Eof))
            } else {
                Ok((tok(ts, 1)->Ident_0, e))
            },
        }
    }
}

/// A whole source file: lexed, then parsed.
pub open spec fn parse_source(b: Seq<u8>) -> Result<(Seq<char>, Expr), ErrorView> {
    match lex_bytes(b) {
        Ok(ts) => parse_tokens(ts),
        Err(err) => Err(err),
    }
}

} // verus!
