//! The instructions the code generator hands to Cranelift, as plain values.
//!
//! A function body is a sequence of instructions in one block, each one call
//! of Cranelift's instruction builder. Each instruction makes one value, and
//! an operand names the value it uses by how many instructions back it was
//! made: 1 is the instruction just before.
use vstd::arithmetic::power2::pow2;
use vstd::prelude::*;

verus! {

/// The two's-complement arithmetic and bitwise operations on `i32` values,
/// each one Cranelift instruction.
#[derive(Clone, Copy, Debug, PartialEq, Eq)]
pub enum Arith {
    /// `iadd`
    Add,
    /// `isub`
    Sub,
    /// `imul`
    Mul,
    /// `sdiv`
    Div,
    /// `srem`
    Rem,
    /// `ishl`
    Shl,
    /// `sshr`
    Shr,
    /// `band`
    And,
    /// `bxor`
    Xor,
    /// `bor`
    Or,
}

/// A signed integer comparison (Cranelift's `IntCC` variant of the same name).
#[derive(Clone, Copy, Debug, PartialEq, Eq)]
pub enum Comparison {
    Equal,
    NotEqual,
    SignedLessThan,
    SignedLessThanOrEqual,
    SignedGreaterThan,
    SignedGreaterThanOrEqual,
}

/// One instruction of a function body. Each operand is the distance back to
/// the instruction whose value it uses.
#[derive(Clone, Copy, Debug, PartialEq, Eq)]
pub enum Inst {
    /// `iconst.i32 v`
    Iconst(i64),
    /// `ineg x`
    Ineg(usize),
    /// `bnot x`
    Bnot(usize),
    /// `icmp_imm_s cc, x, imm`, the comparison with a sign-extended
    /// immediate (Cranelift puts the constant in an `iconst` of its own): 1
    /// if the comparison holds, else 0 (an `i8`)
    CompareImm(Comparison, usize, i64),
    /// `uextend.i32 x`
    Uextend(usize),
    /// The arithmetic or bitwise instruction `op` on `l` and `r`, in that order
    Binary(Arith, usize, usize),
    /// `icmp cc, l, r`: 1 if the comparison holds, else 0 (an `i8`)
    Compare(Comparison, usize, usize),
}

/// The distance back from position `n` to the instruction at position `i`.
pub open spec fn back(n: nat, i: usize) -> usize {
    (n - i) as usize
}

/// An operand `d` of the instruction at position `n` names an instruction of
/// the sequence: one of the `n` before it.
pub open spec fn reaches_back(d: usize, n: int) -> bool {
    1 <= d <= n
}

/// Every operand of `inst`, placed at position `n`, names an instruction
/// before it.
pub open spec fn operands_below(inst: Inst, n: int) -> bool {
    match inst {
        Inst::Iconst(_) => true,
        Inst::Ineg(x) => reaches_back(x, n),
        Inst::Bnot(x) => reaches_back(x, n),
        Inst::CompareImm(_, x, _) => reaches_back(x, n),
        Inst::Uextend(x) => reaches_back(x, n),
        Inst::Binary(_, l, r) => reaches_back(l, n) && reaches_back(r, n),
        Inst::Compare(_, l, r) => reaches_back(l, n) && reaches_back(r, n),
    }
}

/// The instructions `s`, placed from position `base` on, use only values
/// made before them.
pub open spec fn refers_back(s: Seq<Inst>, base: int) -> bool {
    forall|i: int| 0 <= i < s.len() ==> operands_below(#[trigger] s[i], base + i)
}

/// Whether the signed comparison `cc` holds of `a` and `b`.
pub open spec fn holds(cc: Comparison, a: int, b: int) -> bool {
    match cc {
        Comparison::Equal => a == b,
        Comparison::NotEqual => a != b,
        Comparison::SignedLessThan => a < b,
        Comparison::SignedLessThanOrEqual => a <= b,
        Comparison::SignedGreaterThan => a > b,
        Comparison::SignedGreaterThanOrEqual => a >= b,
    }
}

/// 1 for true, 0 for false.
pub open spec fn flag(b: bool) -> i32 {
    if b {
        1
    } else {
        0
    }
}

/// The quotient of `a` by `b` rounded toward zero.
pub open spec fn quotient(a: int, b: int) -> int {
    let q = (if a < 0 { -a } else { a }) / (if b < 0 { -b } else { b });
    if (a < 0) != (b < 0) {
        -q
    } else {
        q
    }
}

/// What the instruction for `op` makes of `a` and `b` on 32-bit two's
/// complement values (wrapping; shifts by the amount modulo 32, `sshr`
/// rounding down), or `None` where it traps: division or remainder by zero,
/// and the division of the least value by -1.
pub open spec fn arith_value(op: Arith, a: i32, b: i32) -> Option<i32> {
    match op {
        Arith::Add => Some((a + b) as i32),
        Arith::Sub => Some((a - b) as i32),
        Arith::Mul => Some((a * b) as i32),
        Arith::Div => if b == 0 || (a == i32::MIN && b == -1) {
            None
        } else {
            Some(quotient(a as int, b as int) as i32)
        },
        Arith::Rem => if b == 0 {
            None
        } else {
            Some((a - b * quotient(a as int, b as int)) as i32)
        },
        Arith::Shl => Some((a * pow2((b % 32) as nat)) as i32),
        Arith::Shr => Some(((a as int) / (pow2((b % 32) as nat) as int)) as i32),
        Arith::And => Some(a & b),
        Arith::Xor => Some(a ^ b),
        Arith::Or => Some(a | b),
    }
}

/// The value `d` back from the end of the values `vs`.
pub open spec fn operand(vs: Seq<i32>, d: usize) -> i32 {
    vs[vs.len() - d]
}

/// What `inst` makes after the values `vs`, or `None` where it traps. A
/// comparison's 0/1 result and its widening have the same value.
pub open spec fn inst_value(vs: Seq<i32>, inst: Inst) -> Option<i32> {
    match inst {
        Inst::Iconst(v) => Some(v as i32),
        Inst::Ineg(x) => Some((-operand(vs, x)) as i32),
        Inst::Bnot(x) => Some(!operand(vs, x)),
        Inst::CompareImm(cc, x, imm) => Some(flag(holds(cc, operand(vs, x) as int, imm as int))),
        Inst::Uextend(x) => Some(operand(vs, x)),
        Inst::Binary(op, l, r) => arith_value(op, operand(vs, l), operand(vs, r)),
        Inst::Compare(cc, l, r) => Some(flag(holds(cc, operand(vs, l) as int, operand(vs, r) as int))),
    }
}

/// Runs the instructions `s` after the values `vs`: the values then made,
/// or `None` where one of them traps.
pub open spec fn run(vs: Seq<i32>, s: Seq<Inst>) -> Option<Seq<i32>>
    decreases s.len(),
{
    if s.len() == 0 {
        Some(vs)
    } else {
        match inst_value(vs, s[0]) {
            Some(v) => run(vs.push(v), s.subrange(1, s.len() as int)),
            None => None,
        }
    }
}

/// Running `a + b` is running `a`, then `b` after what `a` made.
pub proof fn lemma_run_concat(vs: Seq<i32>, a: Seq<Inst>, b: Seq<Inst>)
    ensures
        run(vs, a + b) == (match run(vs, a) {
            Some(ws) => run(ws, b),
            None => None,
        }),
    decreases a.len(),
{
    if a.len() == 0 {
        assert(a + b =~= b);
    } else {
        assert((a + b)[0] == a[0]);
        assert((a + b).subrange(1, (a + b).len() as int) =~= a.subrange(1, a.len() as int) + b);
        if let Some(v) = inst_value(vs, a[0]) {
            lemma_run_concat(vs.push(v), a.subrange(1, a.len() as int), b);
        }
    }
}

/// Running one instruction makes its value.
pub proof fn lemma_run_one(vs: Seq<i32>, inst: Inst)
    ensures
        run(vs, seq![inst]) == (match inst_value(vs, inst) {
            Some(v) => Some(vs.push(v)),
            None => None,
        }),
{
    assert(seq![inst].subrange(1, 1) =~= Seq::<Inst>::empty());
    if let Some(v) = inst_value(vs, inst) {
        assert(run(vs.push(v), Seq::<Inst>::empty()) == Some(vs.push(v)));
    }
}

} // verus!
