//! Laws of the parser: it reads back every syntax tree from its fully
//! parenthesized spelling, and it groups operators as C does (tighter
//! levels first, left to right within a level).
use vstd::prelude::*;

use crate::frontend::{self, Expr};
use crate::grammar::{self, BinOp};
use crate::token::TokenView;

verus! {

/// The token that spells a binary operator.
pub open spec fn op_token(op: BinOp) -> TokenView {
    match op {
        BinOp::Mul => TokenView::Star,
        BinOp::Div => TokenView::Slash,
        BinOp::Rem => TokenView::Percent,
        BinOp::Add => TokenView::Plus,
        BinOp::Sub => TokenView::Minus,
        BinOp::Shl => TokenView::Shl,
        BinOp::Shr => TokenView::Shr,
        BinOp::Lt => TokenView::Lt,
        BinOp::Le => TokenView::Le,
        BinOp::Gt => TokenView::Gt,
        BinOp::Ge => TokenView::Ge,
        BinOp::Eq => TokenView::EqEq,
        BinOp::Ne => TokenView::NotEq,
        BinOp::BitAnd => TokenView::Amp,
        BinOp::BitXor => TokenView::Caret,
        BinOp::BitOr => TokenView::Pipe,
    }
}

/// The precedence level of a binary operator (1 binds tightest).
pub open spec fn op_level(op: BinOp) -> nat {
    match op {
        BinOp::Mul | BinOp::Div | BinOp::Rem => 1,
        BinOp::Add | BinOp::Sub => 2,
        BinOp::Shl | BinOp::Shr => 3,
        BinOp::Lt | BinOp::Le | BinOp::Gt | BinOp::Ge => 4,
        BinOp::Eq | BinOp::Ne => 5,
        BinOp::BitAnd => 6,
        BinOp::BitXor => 7,
        BinOp::BitOr => 8,
    }
}

/// `t` is no binary operator of the levels `1..=level`: an expression of
/// that level ends before it.
pub open spec fn closes(level: nat, t: TokenView) -> bool {
    forall|k: nat| 1 <= k <= level ==> #[trigger] grammar::binary_op(k, t) is None
}

/// `( l op r )`.
pub open spec fn parenthesized(op: BinOp, l: Seq<TokenView>, r: Seq<TokenView>) -> Seq<
    TokenView,
> {
    seq![TokenView::LParen] + l + seq![op_token(op)] + r + seq![TokenView::RParen]
}

/// The fully parenthesized spelling of a syntax tree: every binary
/// operation in parentheses, every unary operator in front of its operand.
pub open spec fn print_tokens(e: Expr) -> Seq<TokenView>
    decreases e,
{
    match e {
        Expr::Integer(v) => seq![TokenView::Number(v)],
        Expr::Neg(x) => seq![TokenView::Minus] + print_tokens(*x),
        Expr::Not(x) => seq![TokenView::Bang] + print_tokens(*x),
        Expr::BitNot(x) => seq![TokenView::Tilde] + print_tokens(*x),
        Expr::Add(l, r) => parenthesized(BinOp::Add, print_tokens(*l), print_tokens(*r)),
        Expr::Sub(l, r) => parenthesized(BinOp::Sub, print_tokens(*l), print_tokens(*r)),
        Expr::Mul(l, r) => parenthesized(BinOp::Mul, print_tokens(*l), print_tokens(*r)),
        Expr::Div(l, r) => parenthesized(BinOp::Div, print_tokens(*l), print_tokens(*r)),
        Expr::Rem(l, r) => parenthesized(BinOp::Rem, print_tokens(*l), print_tokens(*r)),
        Expr::Shl(l, r) => parenthesized(BinOp::Shl, print_tokens(*l), print_tokens(*r)),
        Expr::Shr(l, r) => parenthesized(BinOp::Shr, print_tokens(*l), print_tokens(*r)),
        Expr::Eq(l, r) => parenthesized(BinOp::Eq, print_tokens(*l), print_tokens(*r)),
        Expr::Ne(l, r) => parenthesized(BinOp::Ne, print_tokens(*l), print_tokens(*r)),
        Expr::Lt(l, r) => parenthesized(BinOp::Lt, print_tokens(*l), print_tokens(*r)),
        Expr::Le(l, r) => parenthesized(BinOp::Le, print_tokens(*l), print_tokens(*r)),
        Expr::Gt(l, r) => parenthesized(BinOp::Gt, print_tokens(*l), print_tokens(*r)),
        Expr::Ge(l, r) => parenthesized(BinOp::Ge, print_tokens(*l), print_tokens(*r)),
        Expr::BitAnd(l, r) => parenthesized(BinOp::BitAnd, print_tokens(*l), print_tokens(*r)),
        Expr::BitXor(l, r) => parenthesized(BinOp::BitXor, print_tokens(*l), print_tokens(*r)),
        Expr::BitOr(l, r) => parenthesized(BinOp::BitOr, print_tokens(*l), print_tokens(*r)),
    }
}

/// The tokens of the program `int name(void) { return e; }`.
pub open spec fn program_tokens(name: Seq<char>, e: Expr) -> Seq<TokenView> {
    seq![
        TokenView::Int,
        TokenView::Ident(name),
        TokenView::LParen,
        TokenView::Void,
        TokenView::RParen,
        TokenView::LBrace,
        TokenView::Return,
    ] + print_tokens(e) + seq![TokenView::Semi, TokenView::RBrace, TokenView::Eof]
}

/// `s` stands in `ts` from position `p` on.
pub open spec fn occurs_at(ts: Seq<TokenView>, p: int, s: Seq<TokenView>) -> bool {
    &&& 0 <= p
    &&& p + s.len() <= ts.len()
    &&& ts.subrange(p, p + s.len()) == s
}

proof fn lemma_occurs_split(ts: Seq<TokenView>, p: int, s: Seq<TokenView>, t: Seq<TokenView>)
    requires
        occurs_at(ts, p, s + t),
    ensures
        occurs_at(ts, p, s),
        occurs_at(ts, p + s.len(), t),
{
    let whole = ts.subrange(p, p + s.len() + t.len());
    assert(whole == s + t);
    assert forall|i: int| 0 <= i < s.len() implies ts.subrange(p, p + s.len())[i] == s[i] by {
        assert(whole[i] == (s + t)[i]);
    }
    assert(ts.subrange(p, p + s.len()) =~= s);
    assert forall|i: int| 0 <= i < t.len() implies ts.subrange(
        p + s.len(),
        p + s.len() + t.len(),
    )[i] == t[i] by {
        assert(whole[s.len() + i] == (s + t)[s.len() + i]);
    }
    assert(ts.subrange(p + s.len(), p + s.len() + t.len()) =~= t);
}

proof fn lemma_occurs_token(ts: Seq<TokenView>, p: int, s: Seq<TokenView>, i: int)
    requires
        occurs_at(ts, p, s),
        0 <= i < s.len(),
    ensures
        grammar::tok(ts, p + i) == s[i],
{
    assert(ts.subrange(p, p + s.len())[i] == ts[p + i]);
}

proof fn lemma_print_nonempty(e: Expr)
    ensures
        print_tokens(e).len() >= 1,
{
}

/// Each binary operator is read at its own level and at no other.
pub proof fn lemma_binary_op(op: BinOp)
    ensures
        1 <= op_level(op) <= grammar::expr_level(),
        grammar::binary_op(op_level(op), op_token(op)) == Some(op),
        forall|k: nat| k != op_level(op) ==> #[trigger] grammar::binary_op(k, op_token(op)) is None,
{
}

/// No binary operator is a closing parenthesis, a semicolon, or the end.
pub proof fn lemma_closers(level: nat)
    ensures
        closes(level, TokenView::RParen),
        closes(level, TokenView::Semi),
        closes(level, TokenView::Eof),
{
}

/// A parse at a level that stops before a token of no higher level is also
/// the parse at the higher levels.
proof fn lemma_lift(
    ts: Seq<TokenView>,
    from: nat,
    to: nat,
    p: int,
    e: Expr,
    q: int,
)
    requires
        from <= to,
        grammar::parse_level(ts, from, p) == Ok::<(Expr, int), crate::error::ErrorView>((e, q)),
        p < q <= ts.len(),
        forall|k: nat| from < k <= to ==> #[trigger] grammar::binary_op(k, grammar::tok(ts, q))
            is None,
    ensures
        grammar::parse_level(ts, to, p) == Ok::<(Expr, int), crate::error::ErrorView>((e, q)),
    decreases to - from,
{
    if from < to {
        lemma_lift(ts, from, (to - 1) as nat, p, e, q);
        assert(grammar::binary_op(to, grammar::tok(ts, q)) is None);
        assert(grammar::parse_rest(ts, to, e, q) == Ok::<(Expr, int), crate::error::ErrorView>(
            (e, q),
        ));
    }
}

/// `a op b` at the level of `op`, stopping before a token that continues no
/// operation of that level.
proof fn lemma_one_op(
    ts: Seq<TokenView>,
    p: int,
    op: BinOp,
    a: Expr,
    q1: int,
    b: Expr,
    q2: int,
)
    requires
        grammar::parse_level(ts, (op_level(op) - 1) as nat, p) == Ok::<
            (Expr, int),
            crate::error::ErrorView,
        >((a, q1)),
        grammar::tok(ts, q1) == op_token(op),
        grammar::parse_level(ts, (op_level(op) - 1) as nat, q1 + 1) == Ok::<
            (Expr, int),
            crate::error::ErrorView,
        >((b, q2)),
        p < q1 < q2 <= ts.len(),
        grammar::binary_op(op_level(op), grammar::tok(ts, q2)) is None,
    ensures
        grammar::parse_level(ts, op_level(op), p) == Ok::<(Expr, int), crate::error::ErrorView>(
            (grammar::mk_binary(op, a, b), q2),
        ),
{
    lemma_binary_op(op);
    let level = op_level(op);
    assert(grammar::parse_level(ts, level, p) == grammar::parse_rest(ts, level, a, q1));
    assert(grammar::parse_rest(ts, level, a, q1) == grammar::parse_rest(
        ts,
        level,
        grammar::mk_binary(op, a, b),
        q2,
    ));
}

/// A printed expression is read back as a unary-level expression.
proof fn lemma_printed_unary(ts: Seq<TokenView>, p: int, e: Expr)
    requires
        occurs_at(ts, p, print_tokens(e)),
    ensures
        grammar::parse_level(ts, 0, p) == Ok::<(Expr, int), crate::error::ErrorView>(
            (e, p + print_tokens(e).len()),
        ),
    decreases frontend::expr_size(e), 1nat,
{
    let s = print_tokens(e);
    lemma_occurs_token(ts, p, s, 0);
    match e {
        Expr::Integer(v) => {
            assert(grammar::parse_primary(ts, p) == Ok::<(Expr, int), crate::error::ErrorView>(
                (e, p + 1),
            ));
        },
        Expr::Neg(x) => {
            lemma_occurs_split(ts, p, seq![TokenView::Minus], print_tokens(*x));
            lemma_printed_unary(ts, p + 1, *x);
        },
        Expr::Not(x) => {
            lemma_occurs_split(ts, p, seq![TokenView::Bang], print_tokens(*x));
            lemma_printed_unary(ts, p + 1, *x);
        },
        Expr::BitNot(x) => {
            lemma_occurs_split(ts, p, seq![TokenView::Tilde], print_tokens(*x));
            lemma_printed_unary(ts, p + 1, *x);
        },
        Expr::Add(l, r) => lemma_printed_parenthesized(ts, p, BinOp::Add, *l, *r),
        Expr::Sub(l, r) => lemma_printed_parenthesized(ts, p, BinOp::Sub, *l, *r),
        Expr::Mul(l, r) => lemma_printed_parenthesized(ts, p, BinOp::Mul, *l, *r),
        Expr::Div(l, r) => lemma_printed_parenthesized(ts, p, BinOp::Div, *l, *r),
        Expr::Rem(l, r) => lemma_printed_parenthesized(ts, p, BinOp::Rem, *l, *r),
        Expr::Shl(l, r) => lemma_printed_parenthesized(ts, p, BinOp::Shl, *l, *r),
        Expr::Shr(l, r) => lemma_printed_parenthesized(ts, p, BinOp::Shr, *l, *r),
        Expr::Eq(l, r) => lemma_printed_parenthesized(ts, p, BinOp::Eq, *l, *r),
        Expr::Ne(l, r) => lemma_printed_parenthesized(ts, p, BinOp::Ne, *l, *r),
        Expr::Lt(l, r) => lemma_printed_parenthesized(ts, p, BinOp::Lt, *l, *r),
        Expr::Le(l, r) => lemma_printed_parenthesized(ts, p, BinOp::Le, *l, *r),
        Expr::Gt(l, r) => lemma_printed_parenthesized(ts, p, BinOp::Gt, *l, *r),
        Expr::Ge(l, r) => lemma_printed_parenthesized(ts, p, BinOp::Ge, *l, *r),
        Expr::BitAnd(l, r) => lemma_printed_parenthesized(ts, p, BinOp::BitAnd, *l, *r),
        Expr::BitXor(l, r) => lemma_printed_parenthesized(ts, p, BinOp::BitXor, *l, *r),
        Expr::BitOr(l, r) => lemma_printed_parenthesized(ts, p, BinOp::BitOr, *l, *r),
    }
}

/// `( l op r )` is read back as `l op r`.
proof fn lemma_printed_parenthesized(ts: Seq<TokenView>, p: int, op: BinOp, l: Expr, r: Expr)
    requires
        occurs_at(ts, p, parenthesized(op, print_tokens(l), print_tokens(r))),
    ensures
        grammar::parse_level(ts, 0, p) == Ok::<(Expr, int), crate::error::ErrorView>(
            (
                grammar::mk_binary(op, l, r),
                p + parenthesized(op, print_tokens(l), print_tokens(r)).len(),
            ),
        ),
    decreases 1 + frontend::expr_size(l) + frontend::expr_size(r), 0nat,
{
    let pl = print_tokens(l);
    let pr = print_tokens(r);
    let whole = parenthesized(op, pl, pr);
    let level = op_level(op);
    lemma_binary_op(op);
    lemma_print_nonempty(l);
    lemma_print_nonempty(r);
    frontend::lemma_size_positive(l);
    frontend::lemma_size_positive(r);
    assert(whole =~= seq![TokenView::LParen] + (pl + (seq![op_token(op)] + (pr + seq![
        TokenView::RParen,
    ]))));
    lemma_occurs_split(
        ts,
        p,
        seq![TokenView::LParen],
        pl + (seq![op_token(op)] + (pr + seq![TokenView::RParen])),
    );
    lemma_occurs_split(ts, p + 1, pl, seq![op_token(op)] + (pr + seq![TokenView::RParen]));
    let q1 = p + 1 + pl.len();
    lemma_occurs_split(ts, q1, seq![op_token(op)], pr + seq![TokenView::RParen]);
    lemma_occurs_split(ts, q1 + 1, pr, seq![TokenView::RParen]);
    let q2 = q1 + 1 + pr.len();
    lemma_occurs_token(ts, p, seq![TokenView::LParen], 0);
    lemma_occurs_token(ts, q1, seq![op_token(op)], 0);
    lemma_occurs_token(ts, q2, seq![TokenView::RParen], 0);
    lemma_printed_unary(ts, p + 1, l);
    lemma_lift(ts, 0, (level - 1) as nat, p + 1, l, q1);
    lemma_printed_unary(ts, q1 + 1, r);
    lemma_closers(grammar::expr_level());
    lemma_lift(ts, 0, (level - 1) as nat, q1 + 1, r, q2);
    lemma_one_op(ts, p + 1, op, l, q1, r, q2);
    lemma_lift(ts, level, grammar::expr_level(), p + 1, grammar::mk_binary(op, l, r), q2);
    assert(grammar::parse_primary(ts, p) == Ok::<(Expr, int), crate::error::ErrorView>(
        (grammar::mk_binary(op, l, r), q2 + 1),
    ));
}

/// Every syntax tree is read back from its fully parenthesized spelling, at
/// any level, when what follows ends an expression of that level.
pub proof fn law_printed_expression_reads_back(ts: Seq<TokenView>, level: nat, p: int, e: Expr)
    requires
        occurs_at(ts, p, print_tokens(e)),
        closes(level, grammar::tok(ts, p + print_tokens(e).len())),
    ensures
        grammar::parse_level(ts, level, p) == Ok::<(Expr, int), crate::error::ErrorView>(
            (e, p + print_tokens(e).len()),
        ),
{
    lemma_print_nonempty(e);
    lemma_printed_unary(ts, p, e);
    lemma_lift(ts, 0, level, p, e, p + print_tokens(e).len());
}

/// The parser inverts the printer: the program that returns the fully
/// parenthesized spelling of any syntax tree parses to that tree and name.
pub proof fn law_program_reads_back(name: Seq<char>, e: Expr)
    ensures
        grammar::parse_tokens(program_tokens(name, e)) == Ok::<
            (Seq<char>, Expr),
            crate::error::ErrorView,
        >((name, e)),
{
    let head = seq![
        TokenView::Int,
        TokenView::Ident(name),
        TokenView::LParen,
        TokenView::Void,
        TokenView::RParen,
        TokenView::LBrace,
        TokenView::Return,
    ];
    let tail = seq![TokenView::Semi, TokenView::RBrace, TokenView::Eof];
    let body = print_tokens(e);
    let ts = program_tokens(name, e);
    let q: int = 7 + body.len() as int;
    assert(ts =~= head + (body + tail));
    assert(ts.subrange(7, q) =~= body);
    lemma_closers(grammar::expr_level());
    assert(grammar::tok(ts, q) == TokenView::Semi);
    law_printed_expression_reads_back(ts, grammar::expr_level(), 7, e);
    assert(grammar::tok(ts, q + 1) == TokenView::RBrace);
    assert(grammar::tok(ts, q + 2) == TokenView::Eof);
}

/// Precedence, tighter operator on the right: `a loose b tight c` groups as
/// `a loose (b tight c)` when `tight` binds more tightly than `loose`.
pub proof fn law_tighter_operator_groups_first_right(
    ts: Seq<TokenView>,
    p: int,
    a: Expr,
    loose: BinOp,
    b: Expr,
    tight: BinOp,
    c: Expr,
)
    requires
        op_level(tight) < op_level(loose),
        occurs_at(
            ts,
            p,
            print_tokens(a) + seq![op_token(loose)] + print_tokens(b) + seq![op_token(tight)]
                + print_tokens(c),
        ),
        closes(
            grammar::expr_level(),
            grammar::tok(
                ts,
                p + print_tokens(a).len() + 1 + print_tokens(b).len() + 1 + print_tokens(c).len(),
            ),
        ),
    ensures
        grammar::parse_level(ts, grammar::expr_level(), p) == Ok::<
            (Expr, int),
            crate::error::ErrorView,
        >(
            (
                grammar::mk_binary(loose, a, grammar::mk_binary(tight, b, c)),
                p + print_tokens(a).len() + 1 + print_tokens(b).len() + 1 + print_tokens(c).len(),
            ),
        ),
{
    let (pa, pb, pc) = (print_tokens(a), print_tokens(b), print_tokens(c));
    let (lt, ll) = (op_level(tight), op_level(loose));
    lemma_binary_op(tight);
    lemma_binary_op(loose);
    lemma_print_nonempty(a);
    lemma_print_nonempty(b);
    lemma_print_nonempty(c);
    let q1 = p + pa.len();
    let q2 = q1 + 1 + pb.len();
    let q3 = q2 + 1 + pc.len();
    let follow = grammar::tok(ts, q3);
    assert(pa + seq![op_token(loose)] + pb + seq![op_token(tight)] + pc =~= pa + (seq![
        op_token(loose),
    ] + (pb + (seq![op_token(tight)] + pc))));
    lemma_occurs_split(ts, p, pa, seq![op_token(loose)] + (pb + (seq![op_token(tight)] + pc)));
    lemma_occurs_split(ts, q1, seq![op_token(loose)], pb + (seq![op_token(tight)] + pc));
    lemma_occurs_split(ts, q1 + 1, pb, seq![op_token(tight)] + pc);
    lemma_occurs_split(ts, q2, seq![op_token(tight)], pc);
    lemma_occurs_token(ts, q1, seq![op_token(loose)], 0);
    lemma_occurs_token(ts, q2, seq![op_token(tight)], 0);
    lemma_printed_unary(ts, p, a);
    lemma_lift(ts, 0, (ll - 1) as nat, p, a, q1);
    lemma_printed_unary(ts, q1 + 1, b);
    lemma_lift(ts, 0, (lt - 1) as nat, q1 + 1, b, q2);
    lemma_printed_unary(ts, q2 + 1, c);
    lemma_lift(ts, 0, (lt - 1) as nat, q2 + 1, c, q3);
    assert(grammar::binary_op(lt, follow) is None);
    lemma_one_op(ts, q1 + 1, tight, b, q2, c, q3);
    let bc = grammar::mk_binary(tight, b, c);
    lemma_lift(ts, lt, (ll - 1) as nat, q1 + 1, bc, q3);
    assert(grammar::binary_op(ll, follow) is None);
    lemma_one_op(ts, p, loose, a, q1, bc, q3);
    lemma_lift(ts, ll, grammar::expr_level(), p, grammar::mk_binary(loose, a, bc), q3);
}

/// Precedence, tighter operator on the left: `a tight b loose c` groups as
/// `(a tight b) loose c` when `tight` binds more tightly than `loose`.
pub proof fn law_tighter_operator_groups_first_left(
    ts: Seq<TokenView>,
    p: int,
    a: Expr,
    tight: BinOp,
    b: Expr,
    loose: BinOp,
    c: Expr,
)
    requires
        op_level(tight) < op_level(loose),
        occurs_at(
            ts,
            p,
            print_tokens(a) + seq![op_token(tight)] + print_tokens(b) + seq![op_token(loose)]
                + print_tokens(c),
        ),
        closes(
            grammar::expr_level(),
            grammar::tok(
                ts,
                p + print_tokens(a).len() + 1 + print_tokens(b).len() + 1 + print_tokens(c).len(),
            ),
        ),
    ensures
        grammar::parse_level(ts, grammar::expr_level(), p) == Ok::<
            (Expr, int),
            crate::error::ErrorView,
        >(
            (
                grammar::mk_binary(loose, grammar::mk_binary(tight, a, b), c),
                p + print_tokens(a).len() + 1 + print_tokens(b).len() + 1 + print_tokens(c).len(),
            ),
        ),
{
    let (pa, pb, pc) = (print_tokens(a), print_tokens(b), print_tokens(c));
    let (lt, ll) = (op_level(tight), op_level(loose));
    lemma_binary_op(tight);
    lemma_binary_op(loose);
    lemma_print_nonempty(a);
    lemma_print_nonempty(b);
    lemma_print_nonempty(c);
    let q1 = p + pa.len();
    let q2 = q1 + 1 + pb.len();
    let q3 = q2 + 1 + pc.len();
    let follow = grammar::tok(ts, q3);
    assert(pa + seq![op_token(tight)] + pb + seq![op_token(loose)] + pc =~= pa + (seq![
        op_token(tight),
    ] + (pb + (seq![op_token(loose)] + pc))));
    lemma_occurs_split(ts, p, pa, seq![op_token(tight)] + (pb + (seq![op_token(loose)] + pc)));
    lemma_occurs_split(ts, q1, seq![op_token(tight)], pb + (seq![op_token(loose)] + pc));
    lemma_occurs_split(ts, q1 + 1, pb, seq![op_token(loose)] + pc);
    lemma_occurs_split(ts, q2, seq![op_token(loose)], pc);
    lemma_occurs_token(ts, q1, seq![op_token(tight)], 0);
    lemma_occurs_token(ts, q2, seq![op_token(loose)], 0);
    lemma_printed_unary(ts, p, a);
    lemma_lift(ts, 0, (lt - 1) as nat, p, a, q1);
    lemma_printed_unary(ts, q1 + 1, b);
    lemma_lift(ts, 0, (lt - 1) as nat, q1 + 1, b, q2);
    lemma_one_op(ts, p, tight, a, q1, b, q2);
    let ab = grammar::mk_binary(tight, a, b);
    lemma_lift(ts, lt, (ll - 1) as nat, p, ab, q2);
    lemma_printed_unary(ts, q2 + 1, c);
    lemma_lift(ts, 0, (ll - 1) as nat, q2 + 1, c, q3);
    assert(grammar::binary_op(ll, follow) is None);
    lemma_one_op(ts, p, loose, ab, q2, c, q3);
    lemma_lift(ts, ll, grammar::expr_level(), p, grammar::mk_binary(loose, ab, c), q3);
}

/// Operators of one level associate to the left: `a first b second c`
/// groups as `(a first b) second c`.
pub proof fn law_same_level_groups_left(
    ts: Seq<TokenView>,
    p: int,
    a: Expr,
    first: BinOp,
    b: Expr,
    second: BinOp,
    c: Expr,
)
    requires
        op_level(first) == op_level(second),
        occurs_at(
            ts,
            p,
            print_tokens(a) + seq![op_token(first)] + print_tokens(b) + seq![op_token(second)]
                + print_tokens(c),
        ),
        closes(
            grammar::expr_level(),
            grammar::tok(
                ts,
                p + print_tokens(a).len() + 1 + print_tokens(b).len() + 1 + print_tokens(c).len(),
            ),
        ),
    ensures
        grammar::parse_level(ts, grammar::expr_level(), p) == Ok::<
            (Expr, int),
            crate::error::ErrorView,
        >(
            (
                grammar::mk_binary(second, grammar::mk_binary(first, a, b), c),
                p + print_tokens(a).len() + 1 + print_tokens(b).len() + 1 + print_tokens(c).len(),
            ),
        ),
{
    let (pa, pb, pc) = (print_tokens(a), print_tokens(b), print_tokens(c));
    let level = op_level(first);
    lemma_binary_op(first);
    lemma_binary_op(second);
    lemma_print_nonempty(a);
    lemma_print_nonempty(b);
    lemma_print_nonempty(c);
    let q1 = p + pa.len();
    let q2 = q1 + 1 + pb.len();
    let q3 = q2 + 1 + pc.len();
    let follow = grammar::tok(ts, q3);
    assert(pa + seq![op_token(first)] + pb + seq![op_token(second)] + pc =~= pa + (seq![
        op_token(first),
    ] + (pb + (seq![op_token(second)] + pc))));
    lemma_occurs_split(ts, p, pa, seq![op_token(first)] + (pb + (seq![op_token(second)] + pc)));
    lemma_occurs_split(ts, q1, seq![op_token(first)], pb + (seq![op_token(second)] + pc));
    lemma_occurs_split(ts, q1 + 1, pb, seq![op_token(second)] + pc);
    lemma_occurs_split(ts, q2, seq![op_token(second)], pc);
    lemma_occurs_token(ts, q1, seq![op_token(first)], 0);
    lemma_occurs_token(ts, q2, seq![op_token(second)], 0);
    lemma_printed_unary(ts, p, a);
    lemma_lift(ts, 0, (level - 1) as nat, p, a, q1);
    lemma_printed_unary(ts, q1 + 1, b);
    lemma_lift(ts, 0, (level - 1) as nat, q1 + 1, b, q2);
    lemma_printed_unary(ts, q2 + 1, c);
    lemma_lift(ts, 0, (level - 1) as nat, q2 + 1, c, q3);
    let ab = grammar::mk_binary(first, a, b);
    let abc = grammar::mk_binary(second, ab, c);
    assert(grammar::parse_level(ts, level, p) == grammar::parse_rest(ts, level, a, q1));
    assert(grammar::parse_rest(ts, level, a, q1) == grammar::parse_rest(ts, level, ab, q2));
    assert(grammar::parse_rest(ts, level, ab, q2) == grammar::parse_rest(ts, level, abc, q3));
    assert(grammar::binary_op(level, follow) is None);
    lemma_lift(ts, level, grammar::expr_level(), p, abc, q3);
}

/// A unary plus changes nothing but the position: `+x` reads as `x`.
pub proof fn law_unary_plus_is_identity(ts: Seq<TokenView>, p: int)
    requires
        grammar::tok(ts, p) == TokenView::Plus,
    ensures
        grammar::parse_level(ts, 0, p) == grammar::parse_level(ts, 0, p + 1),
{
}

/// Law: an expression parse stops only where no binary operator of its
/// level, or of a tighter one, follows: the parse takes every operator that
/// can continue the expression.
pub proof fn law_expression_ends_where_no_operator_follows(ts: Seq<TokenView>, level: nat, p: int)
    ensures
        grammar::parse_level(ts, level, p) matches Ok((_, q)) ==> forall|k: nat|
            1 <= k <= level ==> #[trigger] grammar::binary_op(k, grammar::tok(ts, q)) is None,
    decreases ts.len() - p, level + 1,
{
    grammar::lemma_parse_progress(ts, level, p);
    if level > 0 {
        law_expression_ends_where_no_operator_follows(ts, (level - 1) as nat, p);
        grammar::lemma_parse_progress(ts, (level - 1) as nat, p);
        if let Ok((e, q)) = grammar::parse_level(ts, (level - 1) as nat, p) {
            lemma_rest_ends_where_no_operator_follows(ts, level, e, q);
        }
    }
}

proof fn lemma_rest_ends_where_no_operator_follows(ts: Seq<TokenView>, level: nat, e: Expr, q0: int)
    requires
        level >= 1,
        0 < q0 <= ts.len(),
        grammar::tok(ts, q0 - 1) != TokenView::Eof,
        forall|k: nat| 1 <= k < level ==> #[trigger] grammar::binary_op(k, grammar::tok(ts, q0)) is None,
    ensures
        grammar::parse_rest(ts, level, e, q0) matches Ok((_, q)) ==> forall|k: nat|
            1 <= k <= level ==> #[trigger] grammar::binary_op(k, grammar::tok(ts, q)) is None,
    decreases ts.len() - q0, 0nat,
{
    if let Some(op) = grammar::binary_op(level, grammar::tok(ts, q0)) {
        law_expression_ends_where_no_operator_follows(ts, (level - 1) as nat, q0 + 1);
        grammar::lemma_parse_progress(ts, (level - 1) as nat, q0 + 1);
        if let Ok((r, q2)) = grammar::parse_level(ts, (level - 1) as nat, q0 + 1) {
            lemma_rest_ends_where_no_operator_follows(ts, level, grammar::mk_binary(op, e, r), q2);
        }
    }
}

} // verus!
