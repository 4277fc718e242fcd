//! The code generator: lowers the returned expression to instructions on
//! 32-bit `int` values (see `ir`), then has Cranelift compile them into a
//! native object file that exports the function.
use vstd::prelude::*;

use cranelift_module::FuncId;

use crate::backend::{
    add_i32_return, clear_context, declare_exported_function, define_function, elf_header,
    fill_body, host_triple, make_context, object_file, set_setting, set_user_name,
    settings_builder, target_config, write_object, ObjectFile,
};
use crate::error::{CompileError, ErrorView};
use crate::frontend::{self, Expr, Function};
use crate::ir::{self, Arith, Comparison, Inst};

verus! {

/// The least value of a 32-bit `int`.
pub const INT_MIN: i64 = -2147483648;

/// The greatest value of a 32-bit `int`.
pub const INT_MAX: i64 = 2147483647;

/// The first integer constant of `e`, in the order the lowering visits them
/// (left operand first), that a 32-bit `int` cannot hold. The constant
/// `2147483648` is accepted directly under a negation, where it spells
/// `INT_MIN`.
pub open spec fn first_unsupported(e: Expr) -> Option<i64>
    decreases frontend::expr_size(e),
{
    match e {
        Expr::Integer(v) => if INT_MIN <= v <= INT_MAX {
            None
        } else {
            Some(v)
        },
        Expr::Neg(x) => if *x == Expr::Integer(2147483648) {
            None
        } else {
            first_unsupported(*x)
        },
        Expr::Not(x) => first_unsupported(*x),
        Expr::BitNot(x) => first_unsupported(*x),
        _ => match frontend::operands(e) {
            Some((l, r)) => {
                proof {
                    frontend::lemma_operands_smaller(e);
                }
                first_of(first_unsupported(l), first_unsupported(r))
            },
            None => None,
        },
    }
}

/// The integer constants of `e`, left to right.
pub open spec fn constants(e: Expr) -> Seq<i64>
    decreases frontend::expr_size(e),
{
    match e {
        Expr::Integer(v) => seq![v],
        Expr::Neg(x) => constants(*x),
        Expr::Not(x) => constants(*x),
        Expr::BitNot(x) => constants(*x),
        _ => match frontend::operands(e) {
            Some((l, r)) => {
                proof {
                    frontend::lemma_operands_smaller(e);
                }
                constants(l) + constants(r)
            },
            None => Seq::empty(),
        },
    }
}

/// Every constant of `e` lies in the range of a 32-bit `int`.
pub open spec fn constants_fit(e: Expr) -> bool {
    forall|k: int| 0 <= k < constants(e).len() ==> INT_MIN <= #[trigger] constants(e)[k] <= INT_MAX
}

/// Law: only constants outside a 32-bit `int` are refused. Where every
/// constant of `e` lies in `[INT_MIN, INT_MAX]`, nothing is unsupported (so
/// `lower` succeeds); and a constant reported as unsupported is one of the
/// constants of `e` and lies outside that range.
pub proof fn law_only_out_of_range_constants_are_refused(e: Expr)
    ensures
        constants_fit(e) ==> first_unsupported(e) is None,
        first_unsupported(e) matches Some(v) ==> !(INT_MIN <= v <= INT_MAX) && constants(e).contains(v),
    decreases frontend::expr_size(e),
{
    match e {
        Expr::Integer(v) => {
            assert(constants(e) == seq![v]);
            assert(constants(e)[0] == v);
        },
        Expr::Neg(x) => {
            law_only_out_of_range_constants_are_refused(*x);
            assert(constants(e) == constants(*x));
        },
        Expr::Not(x) => {
            law_only_out_of_range_constants_are_refused(*x);
            assert(constants(e) == constants(*x));
        },
        Expr::BitNot(x) => {
            law_only_out_of_range_constants_are_refused(*x);
            assert(constants(e) == constants(*x));
        },
        _ => if let Some((l, r)) = frontend::operands(e) {
            frontend::lemma_operands_smaller(e);
            law_only_out_of_range_constants_are_refused(l);
            law_only_out_of_range_constants_are_refused(r);
            let cl = constants(l);
            let cr = constants(r);
            assert(constants(e) == cl + cr);
            if constants_fit(e) {
                assert forall|k: int| 0 <= k < cl.len() implies INT_MIN <= #[trigger] cl[k] <= INT_MAX by {
                    assert((cl + cr)[k] == cl[k]);
                }
                assert forall|k: int| 0 <= k < cr.len() implies INT_MIN <= #[trigger] cr[k] <= INT_MAX by {
                    assert((cl + cr)[cl.len() + k] == cr[k]);
                }
                assert(constants_fit(l));
                assert(constants_fit(r));
            }
            if let Some(v) = first_unsupported(e) {
                if first_unsupported(l) is Some {
                    let k = choose|k: int| 0 <= k < cl.len() && cl[k] == v;
                    assert((cl + cr)[k] == v);
                } else {
                    let k = choose|k: int| 0 <= k < cr.len() && cr[k] == v;
                    assert((cl + cr)[cl.len() + k] == v);
                }
            }
        },
    }
}

/// `a` if it is something, else `b`.
pub open spec fn first_of(a: Option<i64>, b: Option<i64>) -> Option<i64> {
    if a is Some {
        a
    } else {
        b
    }
}

/// `op` on the value `n + 1` instructions back (the left operand's, before
/// `n` instructions of the right one) and the one just before (the right
/// operand's).
pub open spec fn arith_tail(op: Arith, n: nat) -> Seq<Inst> {
    seq![Inst::Binary(op, (n + 1) as usize, 1)]
}

/// The same two values compared by `cc`, left first, and the 0/1 result
/// widened to an `int`.
pub open spec fn compare_tail(cc: Comparison, n: nat) -> Seq<Inst> {
    seq![Inst::Compare(cc, (n + 1) as usize, 1), Inst::Uextend(1)]
}

/// What follows the lowerings of the operands of the binary expression `e`,
/// when the right operand's takes `n` instructions: the instruction of its
/// operator (signed division, remainder, right shift and comparisons).
pub open spec fn binary_tail(e: Expr, n: nat) -> Seq<Inst> {
    match e {
        Expr::Add(_, _) => arith_tail(Arith::Add, n),
        Expr::Sub(_, _) => arith_tail(Arith::Sub, n),
        Expr::Mul(_, _) => arith_tail(Arith::Mul, n),
        Expr::Div(_, _) => arith_tail(Arith::Div, n),
        Expr::Rem(_, _) => arith_tail(Arith::Rem, n),
        Expr::Shl(_, _) => arith_tail(Arith::Shl, n),
        Expr::Shr(_, _) => arith_tail(Arith::Shr, n),
        Expr::Eq(_, _) => compare_tail(Comparison::Equal, n),
        Expr::Ne(_, _) => compare_tail(Comparison::NotEqual, n),
        Expr::Lt(_, _) => compare_tail(Comparison::SignedLessThan, n),
        Expr::Le(_, _) => compare_tail(Comparison::SignedLessThanOrEqual, n),
        Expr::Gt(_, _) => compare_tail(Comparison::SignedGreaterThan, n),
        Expr::Ge(_, _) => compare_tail(Comparison::SignedGreaterThanOrEqual, n),
        Expr::BitAnd(_, _) => arith_tail(Arith::And, n),
        Expr::BitXor(_, _) => arith_tail(Arith::Xor, n),
        Expr::BitOr(_, _) => arith_tail(Arith::Or, n),
        _ => Seq::empty(),
    }
}

/// `ls`, then `rs`, then `op` on their values.
pub open spec fn join_arith(op: Arith, ls: Seq<Inst>, rs: Seq<Inst>) -> Seq<Inst> {
    ls + rs + arith_tail(op, rs.len())
}

/// `ls`, then `rs`, then their values compared by `cc`, widened.
pub open spec fn join_compare(cc: Comparison, ls: Seq<Inst>, rs: Seq<Inst>) -> Seq<Inst> {
    ls + rs + compare_tail(cc, rs.len())
}

/// The instructions that compute `e`, whose value is that of the last one:
/// a constant is one `iconst`; `-2147483648` (the negation of the constant
/// `2147483648`) is the one `iconst` of `INT_MIN`; another negation is
/// `ineg`, `~` is `bnot`, and `!` compares with 0 for equality and widens
/// the result; a binary operation lowers its left operand, then its right
/// one, then applies the instruction of its operator (`binary_tail`: signed division,
/// remainder and right shift; signed comparisons, widened to an `int`).
pub open spec fn lowered(e: Expr) -> Seq<Inst>
    decreases frontend::expr_size(e),
{
    match e {
        Expr::Integer(v) => seq![Inst::Iconst(v)],
        Expr::Neg(x) => if *x == Expr::Integer(2147483648) {
            seq![Inst::Iconst(INT_MIN)]
        } else {
            lowered(*x).push(Inst::Ineg(1))
        },
        Expr::Not(x) => lowered(*x) + seq![Inst::CompareImm(Comparison::Equal, 1, 0), Inst::Uextend(1)],
        Expr::BitNot(x) => lowered(*x).push(Inst::Bnot(1)),
        _ => match frontend::operands(e) {
            Some((l, r)) => {
                proof {
                    frontend::lemma_operands_smaller(e);
                }
                lowered(l) + lowered(r) + binary_tail(e, lowered(r).len())
            },
            None => Seq::empty(),
        },
    }
}

/// The instructions lowering `e` appends before it stops at its first
/// unsupported constant: those of the operands before the one that holds it,
/// and nothing of that constant or of what follows it.
pub open spec fn lowered_before_failure(e: Expr) -> Seq<Inst>
    decreases frontend::expr_size(e),
{
    match e {
        Expr::Integer(_) => Seq::empty(),
        Expr::Neg(x) => if *x == Expr::Integer(2147483648) {
            Seq::empty()
        } else {
            lowered_before_failure(*x)
        },
        Expr::Not(x) => lowered_before_failure(*x),
        Expr::BitNot(x) => lowered_before_failure(*x),
        _ => match frontend::operands(e) {
            Some((l, r)) => {
                proof {
                    frontend::lemma_operands_smaller(e);
                }
                if first_unsupported(l) is Some {
                    lowered_before_failure(l)
                } else {
                    lowered(l) + lowered_before_failure(r)
                }
            },
            None => Seq::empty(),
        },
    }
}

/// The lowering of an expression is never empty.
pub proof fn lemma_lowered_nonempty(e: Expr)
    ensures
        lowered(e).len() >= 1,
{
}

/// Instructions that refer back from `base` on, then instructions that refer
/// back from where those end, refer back from `base` on.
pub proof fn lemma_refers_back_concat(a: Seq<Inst>, b: Seq<Inst>, base: int)
    requires
        ir::refers_back(a, base),
        ir::refers_back(b, base + a.len()),
    ensures
        ir::refers_back(a + b, base),
{
    assert forall|i: int| 0 <= i < (a + b).len() implies ir::operands_below(
        #[trigger] (a + b)[i],
        base + i,
    ) by {
        if i < a.len() {
            assert((a + b)[i] == a[i]);
        } else {
            assert((a + b)[i] == b[i - a.len()]);
        }
    }
}

/// The lowerings `ls` and `rs` of two operands, then instructions that reach
/// back at most into `rs` and themselves, refer back from `base` on.
proof fn lemma_refers_back_join(ls: Seq<Inst>, rs: Seq<Inst>, tail: Seq<Inst>, base: int)
    requires
        0 <= base,
        ls.len() >= 1,
        ir::refers_back(ls, base),
        ir::refers_back(rs, base + ls.len()),
        forall|i: int| 0 <= i < tail.len() ==> ir::operands_below(#[trigger] tail[i], rs.len() + 1 + i),
    ensures
        ir::refers_back(ls + rs + tail, base),
{
    lemma_refers_back_concat(ls, rs, base);
    assert forall|i: int| 0 <= i < tail.len() implies ir::operands_below(
        #[trigger] tail[i],
        base + (ls + rs).len() + i,
    ) by {
        assert(ir::operands_below(tail[i], rs.len() + 1 + i));
    }
    lemma_refers_back_concat(ls + rs, tail, base);
}

/// The operands of the instructions that follow two operand lowerings reach
/// back at most over the right operand's and their own.
proof fn lemma_binary_tail_refers(e: Expr, n: nat)
    requires
        n + 1 <= usize::MAX,
    ensures
        forall|i: int|
            0 <= i < binary_tail(e, n).len() ==> ir::operands_below(#[trigger] binary_tail(e, n)[i], n + 1 + i),
{
}

/// Every operand in the lowering of `e` names an earlier instruction of it.
pub proof fn lemma_lowered_refers_back(e: Expr, base: int)
    requires
        0 <= base,
        lowered(e).len() <= usize::MAX,
    ensures
        ir::refers_back(lowered(e), base),
    decreases frontend::expr_size(e),
{
    match e {
        Expr::Integer(_) => {},
        Expr::Neg(x) => if *x != Expr::Integer(2147483648) {
            lemma_lowered_nonempty(*x);
            lemma_lowered_refers_back(*x, base);
            lemma_refers_back_concat(lowered(*x), seq![Inst::Ineg(1)], base);
        },
        Expr::Not(x) => {
            lemma_lowered_nonempty(*x);
            lemma_lowered_refers_back(*x, base);
            lemma_refers_back_concat(lowered(*x), seq![Inst::CompareImm(Comparison::Equal, 1, 0), Inst::Uextend(1)], base);
        },
        Expr::BitNot(x) => {
            lemma_lowered_nonempty(*x);
            lemma_lowered_refers_back(*x, base);
            lemma_refers_back_concat(lowered(*x), seq![Inst::Bnot(1)], base);
        },
        _ => if let Some((l, r)) = frontend::operands(e) {
            frontend::lemma_operands_smaller(e);
            lemma_lowered_nonempty(l);
            lemma_lowered_refers_back(l, base);
            lemma_lowered_refers_back(r, base + lowered(l).len());
            lemma_binary_tail_refers(e, lowered(r).len());
            lemma_refers_back_join(lowered(l), lowered(r), binary_tail(e, lowered(r).len()), base);
        },
    }
}

/// What lowering `e` after the instructions `before` leaves: on success
/// `before` followed by the lowering of `e`; else the error for the first
/// unsupported constant, with `before` followed by what was lowered before it.
pub open spec fn lowered_after(e: Expr, before: Seq<Inst>, after: Seq<Inst>, r: Result<(), CompileError>) -> bool {
    match first_unsupported(e) {
        None => r is Ok && after == before + lowered(e),
        Some(v) => {
            &&& r is Err
            &&& r->Err_0@ == (ErrorView::IntegerOutOfRange { value: v })
            &&& after == before + lowered_before_failure(e)
        },
    }
}

/// Appends the lowering of `expr` to `out`, or stops at its first
/// unsupported constant (see `lowered_after`).
pub fn lower_expr(expr: &Expr, out: &mut Vec<Inst>) -> (r: Result<(), CompileError>)
    ensures
        lowered_after(*expr, old(out)@, final(out)@, r),
    decreases frontend::expr_size(*expr), 1nat,
{
    let ghost before = out@;
    match expr {
        Expr::Integer(v) => {
            if *v < INT_MIN || *v > INT_MAX {
                return Err(CompileError::IntegerOutOfRange { value: *v });
            }
            out.push(Inst::Iconst(*v));
            assert(out@ =~= before + lowered(*expr));
            Ok(())
        },
        Expr::Neg(x) => {
            let is_int_min = match &**x {
                Expr::Integer(v) => *v == 2147483648,
                _ => false,
            };
            if is_int_min {
                out.push(Inst::Iconst(INT_MIN));
                assert(out@ =~= before + lowered(*expr));
                return Ok(());
            }
            match lower_expr(x, out) {
                Ok(()) => {
                    out.push(Inst::Ineg(1));
                    assert(out@ =~= before + lowered(*expr));
                    Ok(())
                },
                Err(err) => Err(err),
            }
        },
        Expr::Not(x) => {
            match lower_expr(x, out) {
                Ok(()) => {
                    out.push(Inst::CompareImm(Comparison::Equal, 1, 0));
                    out.push(Inst::Uextend(1));
                    assert(out@ =~= before + lowered(*expr));
                    Ok(())
                },
                Err(err) => Err(err),
            }
        },
        Expr::BitNot(x) => {
            match lower_expr(x, out) {
                Ok(()) => {
                    out.push(Inst::Bnot(1));
                    assert(out@ =~= before + lowered(*expr));
                    Ok(())
                },
                Err(err) => Err(err),
            }
        },
        Expr::Add(l, r) => bin(Arith::Add, l, r, out),
        Expr::Sub(l, r) => bin(Arith::Sub, l, r, out),
        Expr::Mul(l, r) => bin(Arith::Mul, l, r, out),
        Expr::Div(l, r) => bin(Arith::Div, l, r, out),
        Expr::Rem(l, r) => bin(Arith::Rem, l, r, out),
        Expr::Shl(l, r) => bin(Arith::Shl, l, r, out),
        Expr::Shr(l, r) => bin(Arith::Shr, l, r, out),
        Expr::Eq(l, r) => compare(Comparison::Equal, l, r, out),
        Expr::Ne(l, r) => compare(Comparison::NotEqual, l, r, out),
        Expr::Lt(l, r) => compare(Comparison::SignedLessThan, l, r, out),
        Expr::Le(l, r) => compare(Comparison::SignedLessThanOrEqual, l, r, out),
        Expr::Gt(l, r) => compare(Comparison::SignedGreaterThan, l, r, out),
        Expr::Ge(l, r) => compare(Comparison::SignedGreaterThanOrEqual, l, r, out),
        Expr::BitAnd(l, r) => bin(Arith::And, l, r, out),
        Expr::BitXor(l, r) => bin(Arith::Xor, l, r, out),
        Expr::BitOr(l, r) => bin(Arith::Or, l, r, out),
    }
}

/// Appends the lowerings of `l` and `r`, left first, then `op` on their
/// values; stops at the first unsupported constant.
fn bin(op: Arith, l: &Expr, r: &Expr, out: &mut Vec<Inst>) -> (res: Result<(), CompileError>)
    ensures
        match first_of(first_unsupported(*l), first_unsupported(*r)) {
            None => res is Ok && final(out)@ == old(out)@ + join_arith(op, lowered(*l), lowered(*r)),
            Some(v) => {
                &&& res is Err
                &&& res->Err_0@ == (ErrorView::IntegerOutOfRange { value: v })
                &&& final(out)@ == old(out)@ + (if first_unsupported(*l) is Some {
                    lowered_before_failure(*l)
                } else {
                    lowered(*l) + lowered_before_failure(*r)
                })
            },
        },
    decreases frontend::expr_size(*l) + frontend::expr_size(*r), 0nat,
{
    proof {
        frontend::lemma_size_positive(*l);
        frontend::lemma_size_positive(*r);
    }
    let ghost before = out@;
    if let Err(err) = lower_expr(l, out) {
        return Err(err);
    }
    let mid = out.len();
    if let Err(err) = lower_expr(r, out) {
        return Err(err);
    }
    let right_len = out.len() - mid;
    out.push(Inst::Binary(op, right_len + 1, 1));
    assert(out@ =~= before + join_arith(op, lowered(*l), lowered(*r)));
    Ok(())
}

/// Appends the lowerings of `l` and `r`, left first, then their comparison
/// by `cc` widened to an `int`; stops at the first unsupported constant.
fn compare(cc: Comparison, l: &Expr, r: &Expr, out: &mut Vec<Inst>) -> (res: Result<(), CompileError>)
    ensures
        match first_of(first_unsupported(*l), first_unsupported(*r)) {
            None => res is Ok && final(out)@ == old(out)@ + join_compare(cc, lowered(*l), lowered(*r)),
            Some(v) => {
                &&& res is Err
                &&& res->Err_0@ == (ErrorView::IntegerOutOfRange { value: v })
                &&& final(out)@ == old(out)@ + (if first_unsupported(*l) is Some {
                    lowered_before_failure(*l)
                } else {
                    lowered(*l) + lowered_before_failure(*r)
                })
            },
        },
    decreases frontend::expr_size(*l) + frontend::expr_size(*r), 0nat,
{
    proof {
        frontend::lemma_size_positive(*l);
        frontend::lemma_size_positive(*r);
    }
    let ghost before = out@;
    if let Err(err) = lower_expr(l, out) {
        return Err(err);
    }
    let mid = out.len();
    if let Err(err) = lower_expr(r, out) {
        return Err(err);
    }
    let right_len = out.len() - mid;
    out.push(Inst::Compare(cc, right_len + 1, 1));
    out.push(Inst::Uextend(1));
    assert(out@ =~= before + join_compare(cc, lowered(*l), lowered(*r)));
    Ok(())
}

/// The instructions that compute `e` (see `lowered`), or the error for its
/// first constant that a 32-bit `int` cannot hold.
pub fn lower(e: &Expr) -> (r: Result<Vec<Inst>, CompileError>)
    ensures
        r is Ok <==> first_unsupported(*e) is None,
        r matches Ok(insts) ==> insts@ == lowered(*e),
        r matches Err(err) ==> err@ == (ErrorView::IntegerOutOfRange {
            value: first_unsupported(*e)->0,
        }),
{
    let mut out: Vec<Inst> = Vec::new();
    match lower_expr(e, &mut out) {
        Ok(()) => {
            assert(out@ =~= lowered(*e));
            Ok(out)
        },
        Err(err) => Err(err),
    }
}

/// `op` on two values, where both are values.
pub open spec fn apply_arith(op: Arith, a: Option<i32>, b: Option<i32>) -> Option<i32> {
    match (a, b) {
        (Some(x), Some(y)) => ir::arith_value(op, x, y),
        _ => None,
    }
}

/// The 0/1 result of comparing two values by `cc`, where both are values.
pub open spec fn apply_compare(cc: Comparison, a: Option<i32>, b: Option<i32>) -> Option<i32> {
    match (a, b) {
        (Some(x), Some(y)) => Some(ir::flag(ir::holds(cc, x as int, y as int))),
        _ => None,
    }
}

/// The value of `e` as a 32-bit `int` expression: constants taken as `int`
/// values, negation and arithmetic wrapping (see `ir::arith_value`), `!`
/// giving 1 for 0 and 0 otherwise, comparisons signed and giving 0 or 1;
/// `None` where a division or remainder traps, operands evaluated left first.
pub open spec fn eval(e: Expr) -> Option<i32>
    decreases e,
{
    match e {
        Expr::Integer(v) => Some(v as i32),
        Expr::Neg(x) => match eval(*x) {
            Some(a) => Some((-a) as i32),
            None => None,
        },
        Expr::Not(x) => match eval(*x) {
            Some(a) => Some(ir::flag(a == 0)),
            None => None,
        },
        Expr::BitNot(x) => match eval(*x) {
            Some(a) => Some(!a),
            None => None,
        },
        Expr::Add(l, r) => apply_arith(Arith::Add, eval(*l), eval(*r)),
        Expr::Sub(l, r) => apply_arith(Arith::Sub, eval(*l), eval(*r)),
        Expr::Mul(l, r) => apply_arith(Arith::Mul, eval(*l), eval(*r)),
        Expr::Div(l, r) => apply_arith(Arith::Div, eval(*l), eval(*r)),
        Expr::Rem(l, r) => apply_arith(Arith::Rem, eval(*l), eval(*r)),
        Expr::Shl(l, r) => apply_arith(Arith::Shl, eval(*l), eval(*r)),
        Expr::Shr(l, r) => apply_arith(Arith::Shr, eval(*l), eval(*r)),
        Expr::Eq(l, r) => apply_compare(Comparison::Equal, eval(*l), eval(*r)),
        Expr::Ne(l, r) => apply_compare(Comparison::NotEqual, eval(*l), eval(*r)),
        Expr::Lt(l, r) => apply_compare(Comparison::SignedLessThan, eval(*l), eval(*r)),
        Expr::Le(l, r) => apply_compare(Comparison::SignedLessThanOrEqual, eval(*l), eval(*r)),
        Expr::Gt(l, r) => apply_compare(Comparison::SignedGreaterThan, eval(*l), eval(*r)),
        Expr::Ge(l, r) => apply_compare(Comparison::SignedGreaterThanOrEqual, eval(*l), eval(*r)),
        Expr::BitAnd(l, r) => apply_arith(Arith::And, eval(*l), eval(*r)),
        Expr::BitXor(l, r) => apply_arith(Arith::Xor, eval(*l), eval(*r)),
        Expr::BitOr(l, r) => apply_arith(Arith::Or, eval(*l), eval(*r)),
    }
}

/// The instructions `s`, run after the values `vs`, compute `r`: where `r`
/// is a value they make one value each, the last of them `r`, and keep `vs`;
/// where `r` is `None` one of them traps.
pub open spec fn computes(vs: Seq<i32>, s: Seq<Inst>, r: Option<i32>) -> bool {
    match r {
        Some(v) => ir::run(vs, s) matches Some(ws) && ws.len() == vs.len() + s.len()
            && ws.subrange(0, vs.len() as int) == vs && ws.last() == v,
        None => ir::run(vs, s) is None,
    }
}

/// Instructions that compute a value, then `tail`, run as `tail` after the
/// values they made.
proof fn lemma_then(vs: Seq<i32>, s: Seq<Inst>, a: Option<i32>, tail: Seq<Inst>)
    requires
        computes(vs, s, a),
    ensures
        ir::run(vs, s + tail) == (match a {
            Some(_) => ir::run(ir::run(vs, s)->0, tail),
            None => None,
        }),
{
    ir::lemma_run_concat(vs, s, tail);
}

/// The values that two operand lowerings make, the right after the left.
proof fn lemma_operands_compute(l: Expr, r: Expr, vs: Seq<i32>)
    requires
        first_unsupported(l) is None,
        first_unsupported(r) is None,
        lowered(l).len() + lowered(r).len() < usize::MAX,
    ensures
        computes(vs, lowered(l), eval(l)),
        eval(l) is Some ==> computes(ir::run(vs, lowered(l))->0, lowered(r), eval(r)),
    decreases frontend::expr_size(l) + frontend::expr_size(r), 0nat,
{
    frontend::lemma_size_positive(l);
    frontend::lemma_size_positive(r);
    law_lowering_computes_the_value(l, vs);
    if eval(l) is Some {
        law_lowering_computes_the_value(r, ir::run(vs, lowered(l))->0);
    }
}

proof fn lemma_arith_computes(op: Arith, l: Expr, r: Expr, vs: Seq<i32>)
    requires
        first_unsupported(l) is None,
        first_unsupported(r) is None,
        lowered(l).len() + lowered(r).len() < usize::MAX,
    ensures
        computes(vs, join_arith(op, lowered(l), lowered(r)), apply_arith(op, eval(l), eval(r))),
    decreases frontend::expr_size(l) + frontend::expr_size(r), 1nat,
{
    lemma_lowered_nonempty(l);
    lemma_operands_compute(l, r, vs);
    lemma_join_arith_computes(op, lowered(l), lowered(r), eval(l), eval(r), vs);
}

proof fn lemma_compare_computes(cc: Comparison, l: Expr, r: Expr, vs: Seq<i32>)
    requires
        first_unsupported(l) is None,
        first_unsupported(r) is None,
        lowered(l).len() + lowered(r).len() < usize::MAX,
    ensures
        computes(vs, join_compare(cc, lowered(l), lowered(r)), apply_compare(cc, eval(l), eval(r))),
    decreases frontend::expr_size(l) + frontend::expr_size(r), 1nat,
{
    lemma_lowered_nonempty(l);
    lemma_operands_compute(l, r, vs);
    lemma_join_compare_computes(cc, lowered(l), lowered(r), eval(l), eval(r), vs);
}

proof fn lemma_join_arith_computes(
    op: Arith,
    ls: Seq<Inst>,
    rs: Seq<Inst>,
    a: Option<i32>,
    b: Option<i32>,
    vs: Seq<i32>,
)
    requires
        ls.len() >= 1,
        rs.len() + 1 <= usize::MAX,
        computes(vs, ls, a),
        a is Some ==> computes(ir::run(vs, ls)->0, rs, b),
    ensures
        computes(vs, join_arith(op, ls, rs), apply_arith(op, a, b)),
{
    let tail = seq![Inst::Binary(op, (rs.len() + 1) as usize, 1)];
    lemma_then(vs, ls, a, rs + tail);
    assert(join_arith(op, ls, rs) =~= ls + (rs + tail));
    if let Some(x) = a {
        let ws1 = ir::run(vs, ls)->0;
        lemma_then(ws1, rs, b, tail);
        if let Some(y) = b {
            let ws2 = ir::run(ws1, rs)->0;
            ir::lemma_run_one(ws2, tail[0]);
            assert(ws2[ws1.len() - 1] == ws2.subrange(0, ws1.len() as int)[ws1.len() - 1]);
            assert(ir::operand(ws2, (rs.len() + 1) as usize) == x);
            assert(ir::operand(ws2, 1) == y);
            if let Some(v) = ir::arith_value(op, x, y) {
                assert(ws2.push(v).subrange(0, vs.len() as int) =~= ws2.subrange(0, vs.len() as int));
                assert(ws2.subrange(0, vs.len() as int) =~= ws1.subrange(0, vs.len() as int));
            }
        }
    }
}

proof fn lemma_join_compare_computes(
    cc: Comparison,
    ls: Seq<Inst>,
    rs: Seq<Inst>,
    a: Option<i32>,
    b: Option<i32>,
    vs: Seq<i32>,
)
    requires
        ls.len() >= 1,
        rs.len() + 1 <= usize::MAX,
        computes(vs, ls, a),
        a is Some ==> computes(ir::run(vs, ls)->0, rs, b),
    ensures
        computes(vs, join_compare(cc, ls, rs), apply_compare(cc, a, b)),
{
    let tail = seq![Inst::Compare(cc, (rs.len() + 1) as usize, 1), Inst::Uextend(1)];
    lemma_then(vs, ls, a, rs + tail);
    assert(join_compare(cc, ls, rs) =~= ls + (rs + tail));
    if let Some(x) = a {
        let ws1 = ir::run(vs, ls)->0;
        lemma_then(ws1, rs, b, tail);
        if let Some(y) = b {
            let ws2 = ir::run(ws1, rs)->0;
            assert(ws2[ws1.len() - 1] == ws2.subrange(0, ws1.len() as int)[ws1.len() - 1]);
            assert(ir::operand(ws2, (rs.len() + 1) as usize) == x);
            assert(ir::operand(ws2, 1) == y);
            let f = ir::flag(ir::holds(cc, x as int, y as int));
            ir::lemma_run_concat(ws2, seq![tail[0]], seq![tail[1]]);
            assert(seq![tail[0]] + seq![tail[1]] =~= tail);
            ir::lemma_run_one(ws2, tail[0]);
            ir::lemma_run_one(ws2.push(f), tail[1]);
            assert(ws2.push(f).push(f).subrange(0, vs.len() as int) =~= ws1.subrange(0, vs.len() as int));
        }
    }
}

/// Instructions that compute a value, then one instruction that makes
/// `f` of it, compute `f` of the value.
proof fn lemma_then_one(vs: Seq<i32>, s: Seq<Inst>, a: Option<i32>, inst: Inst, r: Option<i32>)
    requires
        s.len() >= 1,
        computes(vs, s, a),
        a is None ==> r is None,
        a is Some ==> r == ir::inst_value(ir::run(vs, s)->0, inst),
        a is Some ==> r is Some,
    ensures
        computes(vs, s.push(inst), r),
{
    lemma_then(vs, s, a, seq![inst]);
    assert(s.push(inst) =~= s + seq![inst]);
    if let Some(x) = a {
        let ws = ir::run(vs, s)->0;
        ir::lemma_run_one(ws, inst);
        assert(ws.push(r->0).subrange(0, vs.len() as int) =~= ws.subrange(0, vs.len() as int));
    }
}

proof fn lemma_const_computes(v: i64, vs: Seq<i32>)
    ensures
        computes(vs, seq![Inst::Iconst(v)], Some(v as i32)),
{
    ir::lemma_run_one(vs, Inst::Iconst(v));
    assert(vs.push(v as i32).subrange(0, vs.len() as int) =~= vs);
}

proof fn lemma_neg_computes(x: Expr, vs: Seq<i32>)
    requires
        first_unsupported(x) is None,
        lowered(x).len() + 1 < usize::MAX,
    ensures
        computes(vs, lowered(x).push(Inst::Ineg(1)), match eval(x) {
            Some(a) => Some((-a) as i32),
            None => None,
        }),
    decreases frontend::expr_size(x), 3nat,
{
    lemma_lowered_nonempty(x);
    law_lowering_computes_the_value(x, vs);
    let r = match eval(x) {
        Some(a) => Some((-a) as i32),
        None => None,
    };
    lemma_then_one(vs, lowered(x), eval(x), Inst::Ineg(1), r);
}

proof fn lemma_complement_computes(x: Expr, vs: Seq<i32>)
    requires
        first_unsupported(x) is None,
        lowered(x).len() + 1 < usize::MAX,
    ensures
        computes(vs, lowered(x).push(Inst::Bnot(1)), match eval(x) {
            Some(a) => Some(!a),
            None => None,
        }),
    decreases frontend::expr_size(x), 3nat,
{
    lemma_lowered_nonempty(x);
    law_lowering_computes_the_value(x, vs);
    let r = match eval(x) {
        Some(a) => Some(!a),
        None => None,
    };
    lemma_then_one(vs, lowered(x), eval(x), Inst::Bnot(1), r);
}

proof fn lemma_logical_not_computes(x: Expr, vs: Seq<i32>)
    requires
        first_unsupported(x) is None,
        lowered(x).len() + 2 < usize::MAX,
    ensures
        computes(
            vs,
            lowered(x) + seq![Inst::CompareImm(Comparison::Equal, 1, 0), Inst::Uextend(1)],
            match eval(x) {
                Some(a) => Some(ir::flag(a == 0)),
                None => None,
            },
        ),
    decreases frontend::expr_size(x), 3nat,
{
    lemma_lowered_nonempty(x);
    law_lowering_computes_the_value(x, vs);
    let r = match eval(x) {
        Some(a) => Some(ir::flag(a == 0)),
        None => None,
    };
    let zero_test = Inst::CompareImm(Comparison::Equal, 1, 0);
    let s1 = lowered(x).push(zero_test);
    lemma_then_one(vs, lowered(x), eval(x), zero_test, r);
    lemma_then_one(vs, s1, r, Inst::Uextend(1), r);
    assert(s1.push(Inst::Uextend(1)) =~= lowered(x) + seq![zero_test, Inst::Uextend(1)]);
}

/// Law: lowering keeps the meaning of an expression. The instructions of an
/// expression whose constants a 32-bit `int` can hold, run after any values,
/// compute its value (see `eval`), and trap exactly where evaluating it
/// does.
pub proof fn law_lowering_computes_the_value(e: Expr, vs: Seq<i32>)
    requires
        first_unsupported(e) is None,
        lowered(e).len() < usize::MAX,
    ensures
        computes(vs, lowered(e), eval(e)),
    decreases frontend::expr_size(e), 2nat,
{
    match e {
        Expr::Integer(v) => lemma_const_computes(v, vs),
        Expr::Neg(x) => {
            if *x == Expr::Integer(2147483648) {
                lemma_const_computes(INT_MIN, vs);
                assert(eval(*x) == Some(2147483648i64 as i32));
                assert((-(2147483648i64 as i32)) as i32 == -2147483648i64 as i32) by (bit_vector);
                assert(eval(e) == Some(INT_MIN as i32));
            } else {
                lemma_neg_computes(*x, vs);
            }
        },
        Expr::Not(x) => lemma_logical_not_computes(*x, vs),
        Expr::BitNot(x) => lemma_complement_computes(*x, vs),
        Expr::Add(l, r) => lemma_arith_computes(Arith::Add, *l, *r, vs),
        Expr::Sub(l, r) => lemma_arith_computes(Arith::Sub, *l, *r, vs),
        Expr::Mul(l, r) => lemma_arith_computes(Arith::Mul, *l, *r, vs),
        Expr::Div(l, r) => lemma_arith_computes(Arith::Div, *l, *r, vs),
        Expr::Rem(l, r) => lemma_arith_computes(Arith::Rem, *l, *r, vs),
        Expr::Shl(l, r) => lemma_arith_computes(Arith::Shl, *l, *r, vs),
        Expr::Shr(l, r) => lemma_arith_computes(Arith::Shr, *l, *r, vs),
        Expr::Eq(l, r) => lemma_compare_computes(Comparison::Equal, *l, *r, vs),
        Expr::Ne(l, r) => lemma_compare_computes(Comparison::NotEqual, *l, *r, vs),
        Expr::Lt(l, r) => lemma_compare_computes(Comparison::SignedLessThan, *l, *r, vs),
        Expr::Le(l, r) => lemma_compare_computes(Comparison::SignedLessThanOrEqual, *l, *r, vs),
        Expr::Gt(l, r) => lemma_compare_computes(Comparison::SignedGreaterThan, *l, *r, vs),
        Expr::Ge(l, r) => lemma_compare_computes(Comparison::SignedGreaterThanOrEqual, *l, *r, vs),
        Expr::BitAnd(l, r) => lemma_arith_computes(Arith::And, *l, *r, vs),
        Expr::BitXor(l, r) => lemma_arith_computes(Arith::Xor, *l, *r, vs),
        Expr::BitOr(l, r) => lemma_arith_computes(Arith::Or, *l, *r, vs),
    }
}

/// What the exported function is defined as: one `i32` result, and the
/// lowering of the returned expression.
pub open spec fn exported_definition(function: Function) -> (nat, Seq<Inst>) {
    (1nat, lowered(function.return_value))
}

/// The object module that `emit_object` has Cranelift write: named `ncc`,
/// for this machine, with the shared setting `is_pic` set to `true`, in
/// which `function` is declared for export under its name and defined as
/// `exported_definition(function)`.
///
/// The target is looked up first, and where Cranelift refuses it, or the
/// setting, the declaration or the definition, the error is `Backend`.
/// Otherwise it fails with `IntegerOutOfRange` exactly for the first
/// unsupported constant (see `first_unsupported`).
pub fn compile_module(function: &Function) -> (r: Result<ObjectFile, CompileError>)
    ensures
        r matches Ok(o) ==> {
            &&& o.name() == "ncc"@
            &&& o.settings() == map!["is_pic"@ => "true"@]
            &&& exists|id: FuncId|
                o.declared() == map![id => function.name@] && o.defined() == map![
                    id => exported_definition(*function),
                ]
        },
        r is Ok ==> first_unsupported(function.return_value) is None,
        r matches Err(e) ==> e is Backend || (first_unsupported(function.return_value) is Some
            && e@ == (ErrorView::IntegerOutOfRange {
            value: first_unsupported(function.return_value)->0,
        })),
        first_unsupported(function.return_value) is Some ==> r is Err,
{
    let mut settings = settings_builder();
    if let Err(e) = set_setting(&mut settings, "is_pic", "true") {
        return Err(CompileError::Backend { message: e.to_string() });
    }
    let mut object = match object_file(host_triple(), settings, "ncc") {
        Ok(object) => object,
        Err(err) => return Err(err),
    };
    let mut draft = make_context(&object);
    add_i32_return(&mut draft);
    set_user_name(&mut draft, 0, 0);
    let insts = match lower(&function.return_value) {
        Ok(insts) => insts,
        Err(err) => return Err(err),
    };
    proof {
        assert(insts@.len() == insts.len());
        lemma_lowered_nonempty(function.return_value);
        lemma_lowered_refers_back(function.return_value, 0);
    }
    fill_body(&mut draft, &insts, target_config(&object));
    let id = match declare_exported_function(&mut object, function.name.as_str(), &draft) {
        Ok(id) => id,
        Err(e) => return Err(CompileError::Backend { message: e.to_string() }),
    };
    if let Err(e) = define_function(&mut object, id, &mut draft) {
        return Err(CompileError::Backend { message: e.to_string() });
    }
    clear_context(&object, &mut draft);
    assert(object.declared() =~= map![id => function.name@]);
    assert(object.defined() =~= map![id => exported_definition(*function)]);
    Ok(object)
}

/// Compiles `function` into a native object file for this machine: the
/// module of `compile_module`, finished and written out by Cranelift
/// (`write_object`), an ELF file.
///
/// Fails with `IntegerOutOfRange` exactly for the first unsupported constant
/// (see `first_unsupported`), unless Cranelift refused before (then
/// `Backend`); Cranelift may refuse also when every constant is supported.
pub fn emit_object(function: &Function) -> (r: Result<Vec<u8>, CompileError>)
    ensures
        r is Ok ==> first_unsupported(function.return_value) is None,
        r matches Ok(bytes) ==> elf_header(bytes@),
        r matches Err(e) ==> e is Backend || (first_unsupported(function.return_value) is Some
            && e@ == (ErrorView::IntegerOutOfRange {
            value: first_unsupported(function.return_value)->0,
        })),
        first_unsupported(function.return_value) is Some ==> r is Err,
{
    let object = match compile_module(function) {
        Ok(object) => object,
        Err(err) => return Err(err),
    };
    proof {
        let id = choose|id: FuncId|
            object.declared() == map![id => function.name@] && object.defined() == map![
                id => exported_definition(*function),
            ];
        assert(object.declared().dom() =~= object.defined().dom());
    }
    write_object(object)
}

} // verus!
