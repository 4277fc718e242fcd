//! Tokens of the accepted C subset, their mathematical view, and the
//! text that describes a token in diagnostics.
use vstd::prelude::*;

use crate::text::{push_char, push_decimal_i64, spec_decimal_i64};

verus! {

/// A lexical token.
#[derive(Debug)]
pub enum Token {
    Int,
    Void,
    Return,
    Ident(String),
    Number(i64),
    Plus,
    Minus,
    Star,
    Slash,
    Percent,
    Bang,
    Tilde,
    Amp,
    Caret,
    Pipe,
    EqEq,
    NotEq,
    Lt,
    Le,
    Gt,
    Ge,
    Shl,
    Shr,
    LParen,
    RParen,
    LBrace,
    RBrace,
    Semi,
    Eof,
}

/// The mathematical value of a token: an identifier is its sequence of characters.
pub enum TokenView {
    Int,
    Void,
    Return,
    Ident(Seq<char>),
    Number(i64),
    Plus,
    Minus,
    Star,
    Slash,
    Percent,
    Bang,
    Tilde,
    Amp,
    Caret,
    Pipe,
    EqEq,
    NotEq,
    Lt,
    Le,
    Gt,
    Ge,
    Shl,
    Shr,
    LParen,
    RParen,
    LBrace,
    RBrace,
    Semi,
    Eof,
}

impl View for Token {
    type V = TokenView;

    open spec fn view(&self) -> TokenView {
        match self {
            Token::Int => TokenView::Int,
            Token::Void => TokenView::Void,
            Token::Return => TokenView::Return,
            Token::Ident(s) => TokenView::Ident(s@),
            Token::Number(v) => TokenView::Number(*v),
            Token::Plus => TokenView::Plus,
            Token::Minus => TokenView::Minus,
            Token::Star => TokenView::Star,
            Token::Slash => TokenView::Slash,
            Token::Percent => TokenView::Percent,
            Token::Bang => TokenView::Bang,
            Token::Tilde => TokenView::Tilde,
            Token::Amp => TokenView::Amp,
            Token::Caret => TokenView::Caret,
            Token::Pipe => TokenView::Pipe,
            Token::EqEq => TokenView::EqEq,
            Token::NotEq => TokenView::NotEq,
            Token::Lt => TokenView::Lt,
            Token::Le => TokenView::Le,
            Token::Gt => TokenView::Gt,
            Token::Ge => TokenView::Ge,
            Token::Shl => TokenView::Shl,
            Token::Shr => TokenView::Shr,
            Token::LParen => TokenView::LParen,
            Token::RParen => TokenView::RParen,
            Token::LBrace => TokenView::LBrace,
            Token::RBrace => TokenView::RBrace,
            Token::Semi => TokenView::Semi,
            Token::Eof => TokenView::Eof,
        }
    }
}

/// The views of a sequence of tokens.
pub open spec fn token_views(ts: Seq<Token>) -> Seq<TokenView> {
    ts.map_values(|t: Token| t@)
}

/// The name of a token without payload, as its debug rendering spells it.
pub open spec fn bare_name(t: TokenView) -> Seq<char> {
    match t {
        TokenView::Int => "Int"@,
        TokenView::Void => "Void"@,
        TokenView::Return => "Return"@,
        TokenView::Ident(_) => "Ident"@,
        TokenView::Number(_) => "Number"@,
        TokenView::Plus => "Plus"@,
        TokenView::Minus => "Minus"@,
        TokenView::Star => "Star"@,
        TokenView::Slash => "Slash"@,
        TokenView::Percent => "Percent"@,
        TokenView::Bang => "Bang"@,
        TokenView::Tilde => "Tilde"@,
        TokenView::Amp => "Amp"@,
        TokenView::Caret => "Caret"@,
        TokenView::Pipe => "Pipe"@,
        TokenView::EqEq => "EqEq"@,
        TokenView::NotEq => "NotEq"@,
        TokenView::Lt => "Lt"@,
        TokenView::Le => "Le"@,
        TokenView::Gt => "Gt"@,
        TokenView::Ge => "Ge"@,
        TokenView::Shl => "Shl"@,
        TokenView::Shr => "Shr"@,
        TokenView::LParen => "LParen"@,
        TokenView::RParen => "RParen"@,
        TokenView::LBrace => "LBrace"@,
        TokenView::RBrace => "RBrace"@,
        TokenView::Semi => "Semi"@,
        TokenView::Eof => "Eof"@,
    }
}

/// How a token reads in a diagnostic: `Semi`, `Ident("main")`, `Number(42)`.
pub open spec fn token_text(t: TokenView) -> Seq<char> {
    match t {
        TokenView::Ident(s) => "Ident(\""@ + s + "\")"@,
        TokenView::Number(v) => "Number("@ + spec_decimal_i64(v as int) + ")"@,
        _ => bare_name(t),
    }
}

impl Token {
    /// A copy of the token.
    pub fn duplicate(&self) -> (r: Token)
        ensures
            r@ == self@,
    {
        match self {
            Token::Int => Token::Int,
            Token::Void => Token::Void,
            Token::Return => Token::Return,
            Token::Ident(s) => Token::Ident(s.clone()),
            Token::Number(v) => Token::Number(*v),
            Token::Plus => Token::Plus,
            Token::Minus => Token::Minus,
            Token::Star => Token::Star,
            Token::Slash => Token::Slash,
            Token::Percent => Token::Percent,
            Token::Bang => Token::Bang,
            Token::Tilde => Token::Tilde,
            Token::Amp => Token::Amp,
            Token::Caret => Token::Caret,
            Token::Pipe => Token::Pipe,
            Token::EqEq => Token::EqEq,
            Token::NotEq => Token::NotEq,
            Token::Lt => Token::Lt,
            Token::Le => Token::Le,
            Token::Gt => Token::Gt,
            Token::Ge => Token::Ge,
            Token::Shl => Token::Shl,
            Token::Shr => Token::Shr,
            Token::LParen => Token::LParen,
            Token::RParen => Token::RParen,
            Token::LBrace => Token::LBrace,
            Token::RBrace => Token::RBrace,
            Token::Semi => Token::Semi,
            Token::Eof => Token::Eof,
        }
    }

    /// Whether two tokens are the same token (same kind and same payload).
    pub fn same(&self, other: &Token) -> (r: bool)
        ensures
            r == (self@ == other@),
    {
        match (self, other) {
            (Token::Ident(a), Token::Ident(b)) => a.eq(b),
            (Token::Number(a), Token::Number(b)) => *a == *b,
            (Token::Int, Token::Int) => true,
            (Token::Void, Token::Void) => true,
            (Token::Return, Token::Return) => true,
            (Token::Plus, Token::Plus) => true,
            (Token::Minus, Token::Minus) => true,
            (Token::Star, Token::Star) => true,
            (Token::Slash, Token::Slash) => true,
            (Token::Percent, Token::Percent) => true,
            (Token::Bang, Token::Bang) => true,
            (Token::Tilde, Token::Tilde) => true,
            (Token::Amp, Token::Amp) => true,
            (Token::Caret, Token::Caret) => true,
            (Token::Pipe, Token::Pipe) => true,
            (Token::EqEq, Token::EqEq) => true,
            (Token::NotEq, Token::NotEq) => true,
            (Token::Lt, Token::Lt) => true,
            (Token::Le, Token::Le) => true,
            (Token::Gt, Token::Gt) => true,
            (Token::Ge, Token::Ge) => true,
            (Token::Shl, Token::Shl) => true,
            (Token::Shr, Token::Shr) => true,
            (Token::LParen, Token::LParen) => true,
            (Token::RParen, Token::RParen) => true,
            (Token::LBrace, Token::LBrace) => true,
            (Token::RBrace, Token::RBrace) => true,
            (Token::Semi, Token::Semi) => true,
            (Token::Eof, Token::Eof) => true,
            _ => false,
        }
    }

    /// Appends the diagnostic text of the token to `out`.
    pub fn write_text(&self, out: &mut String)
        ensures
            final(out)@ == old(out)@ + token_text(self@),
    {
        match self {
            Token::Ident(s) => {
                out.append("Ident(\"");
                out.append(s.as_str());
                out.append("\")");
            },
            Token::Number(v) => {
                out.append("Number(");
                push_decimal_i64(out, *v);
                push_char(out, ')');
                assert(")"@ =~= seq![')']) by {
                    reveal_strlit(")");
                }
            },
            Token::Int => out.append("Int"),
            Token::Void => out.append("Void"),
            Token::Return => out.append("Return"),
            Token::Plus => out.append("Plus"),
            Token::Minus => out.append("Minus"),
            Token::Star => out.append("Star"),
            Token::Slash => out.append("Slash"),
            Token::Percent => out.append("Percent"),
            Token::Bang => out.append("Bang"),
            Token::Tilde => out.append("Tilde"),
            Token::Amp => out.append("Amp"),
            Token::Caret => out.append("Caret"),
            Token::Pipe => out.append("Pipe"),
            Token::EqEq => out.append("EqEq"),
            Token::NotEq => out.append("NotEq"),
            Token::Lt => out.append("Lt"),
            Token::Le => out.append("Le"),
            Token::Gt => out.append("Gt"),
            Token::Ge => out.append("Ge"),
            Token::Shl => out.append("Shl"),
            Token::Shr => out.append("Shr"),
            Token::LParen => out.append("LParen"),
            Token::RParen => out.append("RParen"),
            Token::LBrace => out.append("LBrace"),
            Token::RBrace => out.append("RBrace"),
            Token::Semi => out.append("Semi"),
            Token::Eof => out.append("Eof"),
        }
    }
}

} // verus!
