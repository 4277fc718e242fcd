//! Laws of the whole front end on source text: the lexer reads back the
//! tokens it is given spelled out with spaces between them, so the parser
//! reads back every program from its printed source; and every literal of a
//! parsed program is non-negative.
use vstd::prelude::*;

use crate::error::ErrorView;
use crate::frontend::Expr;
use crate::grammar;
use crate::laws;
use crate::lexer::{
    self, AMPERSAND, ASTERISK, BANG, CARET, EQUALS, GREATER, LEFT_BRACE, LEFT_PAREN, LESS, MINUS,
    PERCENT, PIPE, PLUS, RIGHT_BRACE, RIGHT_PAREN, SEMICOLON, SLASH, SPACE, TILDE,
};
use crate::token::TokenView;

verus! {

/// The decimal digits of a natural number, as bytes, without leading zeros.
pub open spec fn decimal_bytes(n: nat) -> Seq<u8>
    decreases n,
{
    if n < 10 {
        seq![(48 + n) as u8]
    } else {
        decimal_bytes(n / 10) + seq![(48 + n % 10) as u8]
    }
}

/// The bytes of a sequence of ASCII characters.
pub open spec fn ascii_bytes(s: Seq<char>) -> Seq<u8> {
    s.map_values(|c: char| c as u8)
}

/// `name` can be spelled as an identifier: ASCII letters, digits and
/// underscores, not starting with a digit, and no keyword.
pub open spec fn is_identifier(name: Seq<char>) -> bool {
    &&& name.len() > 0
    &&& forall|i: int| 0 <= i < name.len() ==> (#[trigger] name[i] as int) < 128
    &&& forall|i: int| 0 <= i < name.len() ==> lexer::is_ident_char(#[trigger] name[i] as u8)
    &&& lexer::is_ident_start(name[0] as u8)
    &&& lexer::word_token(ascii_bytes(name)) is Ident
}

/// How a token is written in source text.
pub open spec fn spell_token(t: TokenView) -> Seq<u8> {
    match t {
        TokenView::Int => seq![105u8, 110u8, 116u8],
        TokenView::Void => seq![118u8, 111u8, 105u8, 100u8],
        TokenView::Return => seq![114u8, 101u8, 116u8, 117u8, 114u8, 110u8],
        TokenView::Ident(name) => ascii_bytes(name),
        TokenView::Number(v) => decimal_bytes(v as nat),
        TokenView::Plus => seq![PLUS],
        TokenView::Minus => seq![MINUS],
        TokenView::Star => seq![ASTERISK],
        TokenView::Slash => seq![SLASH],
        TokenView::Percent => seq![PERCENT],
        TokenView::Bang => seq![BANG],
        TokenView::Tilde => seq![TILDE],
        TokenView::Amp => seq![AMPERSAND],
        TokenView::Caret => seq![CARET],
        TokenView::Pipe => seq![PIPE],
        TokenView::EqEq => seq![EQUALS, EQUALS],
        TokenView::NotEq => seq![BANG, EQUALS],
        TokenView::Lt => seq![LESS],
        TokenView::Le => seq![LESS, EQUALS],
        TokenView::Gt => seq![GREATER],
        TokenView::Ge => seq![GREATER, EQUALS],
        TokenView::Shl => seq![LESS, LESS],
        TokenView::Shr => seq![GREATER, GREATER],
        TokenView::LParen => seq![LEFT_PAREN],
        TokenView::RParen => seq![RIGHT_PAREN],
        TokenView::LBrace => seq![LEFT_BRACE],
        TokenView::RBrace => seq![RIGHT_BRACE],
        TokenView::Semi => seq![SEMICOLON],
        TokenView::Eof => seq![],
    }
}

/// A token that source text can spell: no negative number, no malformed
/// identifier, and not the end marker.
pub open spec fn spellable(t: TokenView) -> bool {
    match t {
        TokenView::Number(v) => v >= 0,
        TokenView::Ident(name) => is_identifier(name),
        TokenView::Eof => false,
        _ => true,
    }
}

pub open spec fn all_spellable(ts: Seq<TokenView>) -> bool {
    forall|i: int| 0 <= i < ts.len() ==> spellable(#[trigger] ts[i])
}

/// Tokens written out, each followed by a space.
pub open spec fn spell_tokens(ts: Seq<TokenView>) -> Seq<u8>
    decreases ts.len(),
{
    if ts.len() == 0 {
        seq![]
    } else {
        spell_token(ts[0]) + seq![SPACE] + spell_tokens(ts.drop_first())
    }
}

/// All integer literals of `e` are non-negative (as the lexer reads them).
pub open spec fn literals_nonnegative(e: Expr) -> bool
    decreases e,
{
    match e {
        Expr::Integer(v) => v >= 0,
        Expr::Neg(x) => literals_nonnegative(*x),
        Expr::Not(x) => literals_nonnegative(*x),
        Expr::BitNot(x) => literals_nonnegative(*x),
        Expr::Add(l, r) => literals_nonnegative(*l) && literals_nonnegative(*r),
        Expr::Sub(l, r) => literals_nonnegative(*l) && literals_nonnegative(*r),
        Expr::Mul(l, r) => literals_nonnegative(*l) && literals_nonnegative(*r),
        Expr::Div(l, r) => literals_nonnegative(*l) && literals_nonnegative(*r),
        Expr::Rem(l, r) => literals_nonnegative(*l) && literals_nonnegative(*r),
        Expr::Shl(l, r) => literals_nonnegative(*l) && literals_nonnegative(*r),
        Expr::Shr(l, r) => literals_nonnegative(*l) && literals_nonnegative(*r),
        Expr::Eq(l, r) => literals_nonnegative(*l) && literals_nonnegative(*r),
        Expr::Ne(l, r) => literals_nonnegative(*l) && literals_nonnegative(*r),
        Expr::Lt(l, r) => literals_nonnegative(*l) && literals_nonnegative(*r),
        Expr::Le(l, r) => literals_nonnegative(*l) && literals_nonnegative(*r),
        Expr::Gt(l, r) => literals_nonnegative(*l) && literals_nonnegative(*r),
        Expr::Ge(l, r) => literals_nonnegative(*l) && literals_nonnegative(*r),
        Expr::BitAnd(l, r) => literals_nonnegative(*l) && literals_nonnegative(*r),
        Expr::BitXor(l, r) => literals_nonnegative(*l) && literals_nonnegative(*r),
        Expr::BitOr(l, r) => literals_nonnegative(*l) && literals_nonnegative(*r),
    }
}

/// The source text of the program `int name(void) { return e; }`, printed
/// with full parentheses and a space after every token.
pub open spec fn program_source(name: Seq<char>, e: Expr) -> Seq<u8> {
    spell_tokens(laws::program_tokens(name, e).drop_last())
}

proof fn lemma_decimal_bytes(n: nat)
    ensures
        decimal_bytes(n).len() >= 1,
        forall|i: int| 0 <= i < decimal_bytes(n).len() ==> lexer::is_digit(#[trigger] decimal_bytes(n)[i]),
        lexer::decimal_value(decimal_bytes(n)) == n,
    decreases n,
{
    if n < 10 {
        assert(((48 + n) as u8) as int == 48 + n);
        assert(decimal_bytes(n).drop_last() =~= Seq::<u8>::empty());
        assert(lexer::decimal_value(Seq::<u8>::empty()) == 0);
        assert(lexer::decimal_value(decimal_bytes(n)) == n);
    } else {
        lemma_decimal_bytes(n / 10);
        let s = decimal_bytes(n);
        let d = n % 10;
        assert(0 <= d < 10);
        assert(s.drop_last() =~= decimal_bytes(n / 10));
        assert(s.last() == (48 + d) as u8);
        assert(((48 + d) as u8) as int == 48 + d);
        assert((n / 10) * 10 + n % 10 == n) by (nonlinear_arith);
        assert(lexer::decimal_value(s) == lexer::decimal_value(s.drop_last()) * 10 + (s.last()
            - 48));
        assert(lexer::decimal_value(s.drop_last()) == n / 10);
        assert(s.last() - 48 == d);
        assert(lexer::decimal_value(s) == n);
    }
}

proof fn lemma_ascii_roundtrip(c: char)
    requires
        (c as int) < 128,
    ensures
        (c as u8) as char == c,
        (c as u8) as int == c as int,
{
}

/// The end of a run of digits that some non-digit follows.
proof fn lemma_digits_run(b: Seq<u8>, k: int, end: int)
    requires
        0 <= k <= end < b.len(),
        forall|i: int| k <= i < end ==> lexer::is_digit(#[trigger] b[i]),
        !lexer::is_digit(b[end]),
    ensures
        lexer::digits_end(b, k) == end,
    decreases end - k,
{
    if k < end {
        lemma_digits_run(b, k + 1, end);
    }
}

/// The end of a run of identifier characters that some other byte follows.
proof fn lemma_ident_run(b: Seq<u8>, k: int, end: int)
    requires
        0 <= k <= end < b.len(),
        forall|i: int| k <= i < end ==> lexer::is_ident_char(#[trigger] b[i]),
        !lexer::is_ident_char(b[end]),
    ensures
        lexer::ident_end(b, k) == end,
    decreases end - k,
{
    if k < end {
        lemma_ident_run(b, k + 1, end);
    }
}

/// A spelled token followed by a space is read as that token.
proof fn lemma_scan_spelled(t: TokenView, rest: Seq<u8>)
    requires
        spellable(t),
    ensures
        lexer::scan(spell_token(t) + seq![SPACE] + rest, 0) == (lexer::Scan::Emit {
            token: t,
            next: spell_token(t).len() as int,
        }),
{
    let x = spell_token(t);
    let b = x + seq![SPACE] + rest;
    assert forall|i: int| 0 <= i < x.len() implies b[i] == x[i] by {}
    assert(b[x.len() as int] == SPACE);
    match t {
        TokenView::Number(v) => {
            lemma_decimal_bytes(v as nat);
            lemma_digits_run(b, 0, x.len() as int);
            assert(b.subrange(0, x.len() as int) =~= x);
        },
        TokenView::Ident(name) => {
            assert forall|i: int| 0 <= i < x.len() implies lexer::is_ident_char(#[trigger] b[i]) by {
                assert(x[i] == name[i] as u8);
            }
            lemma_ident_run(b, 0, x.len() as int);
            assert(b.subrange(0, x.len() as int) =~= x);
            let back = x.map_values(|c: u8| c as char);
            assert forall|i: int| 0 <= i < x.len() implies #[trigger] back[i] == name[i] by {
                lemma_ascii_roundtrip(name[i]);
            }
            assert(back =~= name);
        },
        TokenView::Int => {
            lemma_ident_run(b, 0, 3);
            assert(b.subrange(0, 3) =~= x);
        },
        TokenView::Void => {
            lemma_ident_run(b, 0, 4);
            assert(b.subrange(0, 4) =~= x);
        },
        TokenView::Return => {
            lemma_ident_run(b, 0, 6);
            assert(b.subrange(0, 6) =~= x);
        },
        _ => {},
    }
}

/// The lexer reads back any spellable tokens written out with spaces, and
/// adds the end marker.
pub proof fn law_spelled_tokens_lex_back(ts: Seq<TokenView>)
    requires
        all_spellable(ts),
    ensures
        lexer::lex_bytes(spell_tokens(ts)) == Ok::<Seq<TokenView>, ErrorView>(
            ts.push(TokenView::Eof),
        ),
    decreases ts.len(),
{
    if ts.len() > 0 {
        let t = ts[0];
        let rest = ts.drop_first();
        assert forall|i: int| 0 <= i < rest.len() implies spellable(#[trigger] rest[i]) by {
            assert(rest[i] == ts[i + 1]);
        }
        law_spelled_tokens_lex_back(rest);
        let x = spell_token(t);
        let front = x + seq![SPACE];
        let r = spell_tokens(rest);
        let b = spell_tokens(ts);
        assert(b == front + r);
        lemma_scan_spelled(t, r);
        assert(b[x.len() as int] == SPACE);
        assert(lexer::scan(b, x.len() as int) == lexer::Scan::Skip { next: front.len() as int });
        lexer::law_lexing_ignores_what_precedes(front, r, 0);
        assert(lexer::lex_from(b, 0) == match lexer::lex_from(b, x.len() as int) {
            Ok(rest_ts) => Ok(seq![t] + rest_ts),
            Err(err) => Err(err),
        });
        assert(lexer::lex_from(b, front.len() as int) == Ok::<Seq<TokenView>, ErrorView>(
            rest.push(TokenView::Eof),
        ));
        assert(lexer::lex_from(b, x.len() as int) == lexer::lex_from(b, front.len() as int));
        assert(seq![t] + rest.push(TokenView::Eof) =~= ts.push(TokenView::Eof));
    } else {
        assert(ts.push(TokenView::Eof) =~= seq![TokenView::Eof]);
    }
}

proof fn lemma_print_spellable(e: Expr)
    requires
        literals_nonnegative(e),
    ensures
        all_spellable(laws::print_tokens(e)),
    decreases crate::frontend::expr_size(e), 1nat,
{
    match e {
        Expr::Integer(_) => {},
        Expr::Neg(x) => lemma_unary_spellable(TokenView::Minus, *x),
        Expr::Not(x) => lemma_unary_spellable(TokenView::Bang, *x),
        Expr::BitNot(x) => lemma_unary_spellable(TokenView::Tilde, *x),
        Expr::Add(l, r) => lemma_binary_spellable(grammar::BinOp::Add, *l, *r),
        Expr::Sub(l, r) => lemma_binary_spellable(grammar::BinOp::Sub, *l, *r),
        Expr::Mul(l, r) => lemma_binary_spellable(grammar::BinOp::Mul, *l, *r),
        Expr::Div(l, r) => lemma_binary_spellable(grammar::BinOp::Div, *l, *r),
        Expr::Rem(l, r) => lemma_binary_spellable(grammar::BinOp::Rem, *l, *r),
        Expr::Shl(l, r) => lemma_binary_spellable(grammar::BinOp::Shl, *l, *r),
        Expr::Shr(l, r) => lemma_binary_spellable(grammar::BinOp::Shr, *l, *r),
        Expr::Eq(l, r) => lemma_binary_spellable(grammar::BinOp::Eq, *l, *r),
        Expr::Ne(l, r) => lemma_binary_spellable(grammar::BinOp::Ne, *l, *r),
        Expr::Lt(l, r) => lemma_binary_spellable(grammar::BinOp::Lt, *l, *r),
        Expr::Le(l, r) => lemma_binary_spellable(grammar::BinOp::Le, *l, *r),
        Expr::Gt(l, r) => lemma_binary_spellable(grammar::BinOp::Gt, *l, *r),
        Expr::Ge(l, r) => lemma_binary_spellable(grammar::BinOp::Ge, *l, *r),
        Expr::BitAnd(l, r) => lemma_binary_spellable(grammar::BinOp::BitAnd, *l, *r),
        Expr::BitXor(l, r) => lemma_binary_spellable(grammar::BinOp::BitXor, *l, *r),
        Expr::BitOr(l, r) => lemma_binary_spellable(grammar::BinOp::BitOr, *l, *r),
    }
}

proof fn lemma_unary_spellable(op: TokenView, x: Expr)
    requires
        literals_nonnegative(x),
        op == TokenView::Minus || op == TokenView::Bang || op == TokenView::Tilde,
    ensures
        all_spellable(seq![op] + laws::print_tokens(x)),
    decreases 1 + crate::frontend::expr_size(x), 0nat,
{
    lemma_print_spellable(x);
    let s = seq![op] + laws::print_tokens(x);
    assert forall|i: int| 0 <= i < s.len() implies spellable(#[trigger] s[i]) by {
        if i > 0 {
            assert(s[i] == laws::print_tokens(x)[i - 1]);
        }
    }
}

proof fn lemma_binary_spellable(op: grammar::BinOp, l: Expr, r: Expr)
    requires
        literals_nonnegative(l),
        literals_nonnegative(r),
    ensures
        all_spellable(laws::parenthesized(op, laws::print_tokens(l), laws::print_tokens(r))),
    decreases 1 + crate::frontend::expr_size(l) + crate::frontend::expr_size(r), 0nat,
{
    lemma_print_spellable(l);
    lemma_print_spellable(r);
    let (pl, pr) = (laws::print_tokens(l), laws::print_tokens(r));
    let s = laws::parenthesized(op, pl, pr);
    assert forall|i: int| 0 <= i < s.len() implies spellable(#[trigger] s[i]) by {
        if 1 <= i < 1 + pl.len() {
            assert(s[i] == pl[i - 1]);
        } else if 1 + pl.len() < i < 2 + pl.len() + pr.len() {
            assert(s[i] == pr[i - 2 - pl.len()]);
        }
    }
}

/// The front end reads back every program from its printed source text:
/// parsing the source of `int name(void) { return e; }`, printed with full
/// parentheses, gives `name` and `e` (for a well-formed name and literals
/// the lexer can read, that is non-negative ones).
pub proof fn law_printed_program_parses_back(name: Seq<char>, e: Expr)
    requires
        is_identifier(name),
        literals_nonnegative(e),
    ensures
        grammar::parse_source(program_source(name, e)) == Ok::<(Seq<char>, Expr), ErrorView>(
            (name, e),
        ),
{
    let all = laws::program_tokens(name, e);
    let ts = all.drop_last();
    lemma_print_spellable(e);
    let body = laws::print_tokens(e);
    assert forall|i: int| 0 <= i < ts.len() implies spellable(#[trigger] ts[i]) by {
        if 7 <= i < 7 + body.len() {
            assert(ts[i] == body[i - 7]);
        }
    }
    law_spelled_tokens_lex_back(ts);
    assert(ts.push(TokenView::Eof) =~= all);
    laws::law_program_reads_back(name, e);
}

proof fn lemma_binary_nonnegative(op: grammar::BinOp, l: Expr, r: Expr)
    requires
        literals_nonnegative(l),
        literals_nonnegative(r),
    ensures
        literals_nonnegative(grammar::mk_binary(op, l, r)),
{
}

proof fn lemma_parse_level_nonnegative(ts: Seq<TokenView>, level: nat, p: int)
    requires
        lexer::numbers_nonnegative(ts),
    ensures
        grammar::parse_level(ts, level, p) matches Ok((e, _)) ==> literals_nonnegative(e),
    decreases ts.len() - p, level + 1,
{
    if level == 0 {
        match grammar::tok(ts, p) {
            TokenView::Plus => lemma_parse_level_nonnegative(ts, 0, p + 1),
            TokenView::Minus => lemma_parse_level_nonnegative(ts, 0, p + 1),
            TokenView::Bang => lemma_parse_level_nonnegative(ts, 0, p + 1),
            TokenView::Tilde => lemma_parse_level_nonnegative(ts, 0, p + 1),
            _ => lemma_parse_primary_nonnegative(ts, p),
        }
    } else {
        lemma_parse_level_nonnegative(ts, (level - 1) as nat, p);
        if let Ok((e, q)) = grammar::parse_level(ts, (level - 1) as nat, p) {
            if p < q <= ts.len() {
                lemma_parse_rest_nonnegative(ts, level, e, q);
            }
        }
    }
}

proof fn lemma_parse_rest_nonnegative(ts: Seq<TokenView>, level: nat, e: Expr, q: int)
    requires
        lexer::numbers_nonnegative(ts),
        literals_nonnegative(e),
        q <= ts.len(),
    ensures
        grammar::parse_rest(ts, level, e, q) matches Ok((e2, _)) ==> literals_nonnegative(e2),
    decreases ts.len() - q, 0nat,
{
    if let Some(op) = grammar::binary_op(level, grammar::tok(ts, q)) {
        lemma_parse_level_nonnegative(ts, (level - 1) as nat, q + 1);
        if let Ok((r, q2)) = grammar::parse_level(ts, (level - 1) as nat, q + 1) {
            lemma_binary_nonnegative(op, e, r);
            if q < q2 <= ts.len() {
                lemma_parse_rest_nonnegative(ts, level, grammar::mk_binary(op, e, r), q2);
            }
        }
    }
}

proof fn lemma_parse_primary_nonnegative(ts: Seq<TokenView>, p: int)
    requires
        lexer::numbers_nonnegative(ts),
    ensures
        grammar::parse_primary(ts, p) matches Ok((e, _)) ==> literals_nonnegative(e),
    decreases ts.len() - p, 0nat,
{
    if 0 <= p < ts.len() {
        assert(ts[p] matches TokenView::Number(v) ==> v >= 0);
    }
    if grammar::tok(ts, p) == TokenView::LParen {
        lemma_parse_level_nonnegative(ts, grammar::expr_level(), p + 1);
    }
}

/// Every integer literal of a parsed program is non-negative: a minus sign
/// in the source is always a negation.
pub proof fn law_parsed_literals_are_nonnegative(b: Seq<u8>)
    ensures
        grammar::parse_source(b) matches Ok((_, e)) ==> literals_nonnegative(e),
{
    lexer::lemma_lexed_numbers_nonnegative(b, 0);
    if let Ok(ts) = lexer::lex_bytes(b) {
        lemma_parse_level_nonnegative(ts, grammar::expr_level(), 7);
    }
}

} // verus!
