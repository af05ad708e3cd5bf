//! What the simulation of instructions means: it does what the virtual machine does.
use crate::builder::{comparison, comparison_name, plain_step, tested, FrameV};
use crate::bytecode::{operation_of, prim_type, InstructionV, Opcode, Prim};
use crate::expr::{const_type, BinOp, ConstValV, ExprV};
use crate::meaning::{
    arithmetic, bitwise, constant, distance, int_arithmetic, long_arithmetic, quotient, remainder,
    sign, size, truth, value, values, wrap32, wrap64, Valuation,
};
use crate::sim::{SimV, TermV};
use crate::types::{has_prefix, JTypeV};
use crate::values::{folded_consts, folded_ints, folded_longs};
use vstd::prelude::*;

verus! {

// ---------------------------------------------------------------------
// Values.

/// The number that an instruction puts on the stack.
pub open spec fn pushed_number(w: Valuation, i: InstructionV) -> Option<int> {
    match i.op {
        Opcode::AconstNull => Some(0),
        Opcode::IconstM1 => Some(-1),
        Opcode::Iconst0 => Some(0),
        Opcode::Iconst1 => Some(1),
        Opcode::Iconst2 => Some(2),
        Opcode::Iconst3 => Some(3),
        Opcode::Iconst4 => Some(4),
        Opcode::Iconst5 => Some(5),
        Opcode::Lconst0 => Some(0),
        Opcode::Lconst1 => Some(1),
        Opcode::Fconst0 => Some((w.constant)(ConstValV::Float(0))),
        Opcode::Fconst1 => Some((w.constant)(ConstValV::Float(0x3f800000))),
        Opcode::Fconst2 => Some((w.constant)(ConstValV::Float(0x40000000))),
        Opcode::Dconst0 => Some((w.constant)(ConstValV::Double(0))),
        Opcode::Dconst1 => Some((w.constant)(ConstValV::Double(0x3ff0000000000000))),
        Opcode::Bipush => Some(i.a + 0),
        Opcode::Sipush => Some(i.a + 0),
        _ => None,
    }
}

/// What an instruction computes from the two values on top of the stack, of which `b` is the
/// topmost.
pub open spec fn computed(w: Valuation, o: Opcode, a: int, b: int) -> Option<int> {
    match o {
        Opcode::Iadd => Some(wrap32(a + b)),
        Opcode::Isub => Some(wrap32(a - b)),
        Opcode::Imul => Some(wrap32(a * b)),
        Opcode::Idiv => Some(wrap32(quotient(a, b))),
        Opcode::Irem => Some(wrap32(remainder(a, b))),
        Opcode::Ladd => Some(wrap64(a + b)),
        Opcode::Lsub => Some(wrap64(a - b)),
        Opcode::Lmul => Some(wrap64(a * b)),
        Opcode::Ldiv => Some(wrap64(quotient(a, b))),
        Opcode::Lrem => Some(wrap64(remainder(a, b))),
        Opcode::Fadd => Some((w.floating)(BinOp::Add, Some(JTypeV::Float), a, b)),
        Opcode::Fsub => Some((w.floating)(BinOp::Sub, Some(JTypeV::Float), a, b)),
        Opcode::Fmul => Some((w.floating)(BinOp::Mul, Some(JTypeV::Float), a, b)),
        Opcode::Fdiv => Some((w.floating)(BinOp::Div, Some(JTypeV::Float), a, b)),
        Opcode::Frem => Some((w.floating)(BinOp::Rem, Some(JTypeV::Float), a, b)),
        Opcode::Dadd => Some((w.floating)(BinOp::Add, Some(JTypeV::Double), a, b)),
        Opcode::Dsub => Some((w.floating)(BinOp::Sub, Some(JTypeV::Double), a, b)),
        Opcode::Dmul => Some((w.floating)(BinOp::Mul, Some(JTypeV::Double), a, b)),
        Opcode::Ddiv => Some((w.floating)(BinOp::Div, Some(JTypeV::Double), a, b)),
        Opcode::Drem => Some((w.floating)(BinOp::Rem, Some(JTypeV::Double), a, b)),
        Opcode::Lcmp | Opcode::Fcmpl | Opcode::Fcmpg | Opcode::Dcmpl | Opcode::Dcmpg => Some(
            sign(a - b),
        ),
        Opcode::Iaload | Opcode::Laload | Opcode::Faload | Opcode::Daload | Opcode::Aaload
        | Opcode::Baload | Opcode::Caload | Opcode::Saload => Some((w.element)(a, b)),
        _ => shifted(o, a, b),
    }
}

/// What an instruction that works on bits computes.
pub open spec fn shifted(o: Opcode, a: int, b: int) -> Option<int> {
    match o {
        Opcode::Ishl => Some(((a as i32) << distance(b, 32)) as int),
        Opcode::Ishr => Some(((a as i32) >> distance(b, 32)) as int),
        Opcode::Iushr => Some(((((a as i32) as u32) >> distance(b, 32)) as i32) as int),
        Opcode::Lshl => Some(((a as i64) << distance(b, 64)) as int),
        Opcode::Lshr => Some(((a as i64) >> distance(b, 64)) as int),
        Opcode::Lushr => Some(((((a as i64) as u64) >> distance(b, 64)) as i64) as int),
        Opcode::Iand | Opcode::Land => Some(((a as i64) & (b as i64)) as int),
        Opcode::Ior | Opcode::Lor => Some(((a as i64) | (b as i64)) as int),
        Opcode::Ixor | Opcode::Lxor => Some(((a as i64) ^ (b as i64)) as int),
        _ => None,
    }
}

/// The type of constants that an arithmetic instruction works on; none of the others cares.
pub open spec fn worked_on(o: Opcode) -> Option<JTypeV> {
    match o {
        Opcode::Iadd | Opcode::Isub | Opcode::Imul | Opcode::Idiv | Opcode::Irem | Opcode::Ishl
        | Opcode::Ishr | Opcode::Iushr | Opcode::Iand | Opcode::Ior | Opcode::Ixor => Some(
            JTypeV::Int,
        ),
        Opcode::Ladd | Opcode::Lsub | Opcode::Lmul | Opcode::Ldiv | Opcode::Lrem | Opcode::Land
        | Opcode::Lor | Opcode::Lxor | Opcode::Lshl | Opcode::Lshr | Opcode::Lushr => Some(
            JTypeV::Long,
        ),
        Opcode::Fadd | Opcode::Fsub | Opcode::Fmul | Opcode::Fdiv | Opcode::Frem => Some(
            JTypeV::Float,
        ),
        Opcode::Dadd | Opcode::Dsub | Opcode::Dmul | Opcode::Ddiv | Opcode::Drem => Some(
            JTypeV::Double,
        ),
        _ => None,
    }
}

/// A constant on the left of an instruction is of the type that it works on.
pub open spec fn fits(o: Opcode, l: ExprV) -> bool {
    match (worked_on(o), l) {
        (Some(t), ExprV::Const(c)) => const_type(c) == t,
        _ => true,
    }
}

/// Wrapping around is counting from the other end.
proof fn lemma_wrap32(n: int)
    ensures
        -0x8000_0000 <= n < 0x8000_0000 ==> wrap32(n) == n,
        0x8000_0000 <= n < 0x1_8000_0000 ==> wrap32(n) == n - 0x1_0000_0000,
        -0x1_8000_0000 <= n < -0x8000_0000 ==> wrap32(n) == n + 0x1_0000_0000,
        wrap32(n) == if n % 0x1_0000_0000 > 0x7fff_ffff {
            n % 0x1_0000_0000 - 0x1_0000_0000
        } else {
            n % 0x1_0000_0000
        },
{
}

/// Wrapping around is counting from the other end.
proof fn lemma_wrap64(n: int)
    ensures
        -0x8000_0000_0000_0000 <= n < 0x8000_0000_0000_0000 ==> wrap64(n) == n,
        0x8000_0000_0000_0000 <= n < 0x1_8000_0000_0000_0000 ==> wrap64(n) == n
            - 0x1_0000_0000_0000_0000,
        -0x1_8000_0000_0000_0000 <= n < -0x8000_0000_0000_0000 ==> wrap64(n) == n
            + 0x1_0000_0000_0000_0000,
        wrap64(n) == if n % 0x1_0000_0000_0000_0000 > 0x7fff_ffff_ffff_ffff {
            n % 0x1_0000_0000_0000_0000 - 0x1_0000_0000_0000_0000
        } else {
            n % 0x1_0000_0000_0000_0000
        },
{
}

/// A quotient is no larger than what is divided, a remainder smaller than the divisor.
proof fn lemma_division(a: int, b: int)
    requires
        a >= 0,
        b > 0,
    ensures
        0 <= a / b <= a,
        0 <= a % b < b,
        a % b <= a,
        a == 0 ==> a / b == 0 && a % b == 0,
        b == 1 ==> a / b == a && a % b == 0,
{
    vstd::arithmetic::div_mod::lemma_fundamental_div_mod(a, b);
    assert(0 <= a / b) by (nonlinear_arith)
        requires
            a >= 0,
            b > 0,
    ;
    assert(a / b <= b * (a / b)) by (nonlinear_arith)
        requires
            b > 0,
            0 <= a / b,
    ;
    if a == 0 {
        assert(0int / b == 0) by (nonlinear_arith)
            requires
                b > 0,
        ;
        assert(0int % b == 0) by (nonlinear_arith)
            requires
                b > 0,
        ;
    }
}

/// Folding `int`s computes what the machine computes.
#[verifier::spinoff_prover]
proof fn lemma_folded_ints(op: BinOp, a: i32, b: i32)
    ensures
        folded_ints(op, a, b) matches Some(v) ==> v == if op is And || op is Or || op is Xor {
            bitwise(op, a as int, b as int)
        } else {
            int_arithmetic(op, a as int, b as int)
        },
{
    match op {
        BinOp::Add => {
            lemma_wrap32(a + b);
        },
        BinOp::Sub => {
            lemma_wrap32(a - b);
        },
        BinOp::Mul => {
            lemma_wrap32(a * b);
        },
        BinOp::Div => {
            if b != 0 {
                lemma_division(size(a as int), size(b as int));
                lemma_wrap32(quotient(a as int, b as int));
            }
        },
        BinOp::Rem => {
            if b != 0 {
                lemma_division(size(a as int), size(b as int));
                lemma_wrap32(remainder(a as int, b as int));
            }
        },
        BinOp::And => {
            assert(((a as i64) & (b as i64)) == (a & b) as i64) by (bit_vector);
        },
        BinOp::Or => {
            assert(((a as i64) | (b as i64)) == (a | b) as i64) by (bit_vector);
        },
        BinOp::Xor => {
            assert(((a as i64) ^ (b as i64)) == (a ^ b) as i64) by (bit_vector);
        },
        _ => {},
    }
}

/// Folding `long`s computes what the machine computes.
#[verifier::spinoff_prover]
proof fn lemma_folded_longs(op: BinOp, a: i64, b: i64)
    ensures
        folded_longs(op, a, b) matches Some(v) ==> v == long_arithmetic(op, a as int, b as int)
            && !(op is And || op is Or || op is Xor),
{
    match op {
        BinOp::Add => {
            lemma_wrap64(a + b);
        },
        BinOp::Sub => {
            lemma_wrap64(a - b);
        },
        BinOp::Mul => {
            lemma_wrap64(a * b);
        },
        BinOp::Div => {
            if b != 0 {
                lemma_division(size(a as int), size(b as int));
                lemma_wrap64(quotient(a as int, b as int));
            }
        },
        BinOp::Rem => {
            if b != 0 {
                lemma_division(size(a as int), size(b as int));
                lemma_wrap64(remainder(a as int, b as int));
            }
        },
        _ => {},
    }
}

/// Folding constants computes what the machine computes on values of their type.
proof fn lemma_folded_consts(w: Valuation, op: BinOp, a: ConstValV, b: ConstValV)
    requires
        !(a is Str),
    ensures
        folded_consts(op, a, b) matches Some(c) ==> constant(w, c) == arithmetic(
            w,
            op,
            Some(const_type(a)),
            constant(w, a),
            constant(w, b),
        ),
{
    match (a, b) {
        (ConstValV::Int(x), ConstValV::Int(y)) => {
            lemma_folded_ints(op, x, y);
        },
        (ConstValV::Long(x), ConstValV::Long(y)) => {
            lemma_folded_longs(op, x, y);
        },
        _ => {},
    }
}

/// The tag of a comparison is one.
proof fn lemma_comparison_name(p: Prim)
    ensures
        has_prefix(comparison_name(p), "\u{0}cmp"@),
{
    reveal_strlit("\u{0}cmp");
    reveal_strlit("\u{0}cmpJ");
    reveal_strlit("\u{0}cmpF");
    reveal_strlit("\u{0}cmpD");
    assert(comparison_name(p).take(4) =~= "\u{0}cmp"@);
}

/// A comparison has the sign of the difference.
proof fn lemma_comparison(w: Valuation, l: ExprV, r: ExprV, p: Prim)
    ensures
        value(w, comparison(l, r, p)) == sign(value(w, l) - value(w, r)),
{
    lemma_comparison_name(p);
    assert(seq![l, r][0] == l && seq![l, r][1] == r);
}

/// The value of one more entry.
proof fn lemma_values_push(w: Valuation, l: Seq<ExprV>, e: ExprV)
    ensures
        values(w, l.push(e)) == values(w, l).push(value(w, e)),
        l.len() > 0 ==> values(w, l.drop_last()) == values(w, l).drop_last(),
{
    assert(values(w, l.push(e)) =~= values(w, l).push(value(w, e)));
    if l.len() > 0 {
        assert(values(w, l.drop_last()) =~= values(w, l).drop_last());
    }
}

/// An instruction that pushes a constant pushes its number.
pub proof fn law_constants_are_pushed(w: Valuation, st: SimV, fr: FrameV, i: InstructionV)
    requires
        pushed_number(w, i) is Some,
    ensures
        plain_step(st, fr, i) matches Ok(st1) && values(w, st1.stack) == values(w, st.stack).push(
            pushed_number(w, i).unwrap(),
        ) && st1.stmts == st.stmts && st1.term == st.term,
{
    if let Ok(st1) = plain_step(st, fr, i) {
        lemma_values_push(w, st.stack, st1.stack.last());
        assert(st1.stack == st.stack.push(st1.stack.last()));
    }
}

/// An instruction that takes two values and gives one leaves what the machine computes from
/// them, the lower one on the left: the expression that is pushed evaluates to it, whatever
/// the variables hold.
#[verifier::spinoff_prover]
#[verifier::rlimit(40)]
pub proof fn law_operands_keep_their_sides(w: Valuation, st: SimV, fr: FrameV, i: InstructionV)
    requires
        st.stack.len() >= 2,
        computed(w, i.op, 0, 0) is Some,
        fits(i.op, st.stack[st.stack.len() - 2]),
    ensures
        ({
            let n = st.stack.len();
            let a = value(w, st.stack[n - 2]);
            let b = value(w, st.stack[n - 1]);
            plain_step(st, fr, i) matches Ok(st1) && values(w, st1.stack) == values(
                w,
                st.stack.take(n - 2),
            ).push(computed(w, i.op, a, b).unwrap()) && st1.stmts == st.stmts && st1.term
                == st.term
        }),
{
    let n = st.stack.len();
    let l = st.stack[n - 2];
    let r = st.stack[n - 1];
    assert(st.stack.drop_last().drop_last() =~= st.stack.take(n - 2));
    assert(st.stack.drop_last().last() == l);
    let st1 = plain_step(st, fr, i)->Ok_0;
    let e = st1.stack.last();
    lemma_values_push(w, st.stack.take(n - 2), e);
    assert(st1.stack == st.stack.take(n - 2).push(e));
    lemma_comparison(w, l, r, Prim::Long);
    lemma_comparison(w, l, r, Prim::Float);
    lemma_comparison(w, l, r, Prim::Double);
    if let (ExprV::Const(x), ExprV::Const(y)) = (l, r) {
        if let crate::bytecode::Operation::Arith(op, p) = operation_of(i) {
            assert(Some(const_type(x)) == Some(prim_type(p)));
            assert(!(x is Str));
            lemma_folded_consts(w, op, x, y);
        }
    }
}

// ---------------------------------------------------------------------
// Branches.

/// Whether a branch is taken, and how many values it takes: those on top of the stack, of
/// which `b` is the topmost.
pub open spec fn taken(o: Opcode, a: int, b: int) -> Option<(nat, bool)> {
    match o {
        Opcode::Ifeq => Some((1, b == 0)),
        Opcode::IfNe => Some((1, b != 0)),
        Opcode::IfLt => Some((1, b < 0)),
        Opcode::IfGe => Some((1, b >= 0)),
        Opcode::IfGt => Some((1, b > 0)),
        Opcode::IfLe => Some((1, b <= 0)),
        Opcode::IfNull => Some((1, b == 0)),
        Opcode::IfNonnull => Some((1, b != 0)),
        Opcode::IfIcmpEq | Opcode::IfAcmpeq => Some((2, a == b)),
        Opcode::IfIcmpNe | Opcode::IfAcmpne => Some((2, a != b)),
        Opcode::IfIcmpLt => Some((2, a < b)),
        Opcode::IfIcmpGe => Some((2, a >= b)),
        Opcode::IfIcmpGt => Some((2, a > b)),
        Opcode::IfIcmpLe => Some((2, a <= b)),
        _ => None,
    }
}

/// The condition of a block is true exactly when the machine takes the branch at its end.
#[verifier::spinoff_prover]
pub proof fn law_condition_is_the_branch(w: Valuation, st: SimV, fr: FrameV, i: InstructionV)
    requires
        taken(i.op, 0, 0) is Some,
        st.stack.len() >= taken(i.op, 0, 0).unwrap().0,
    ensures
        ({
            let n = st.stack.len();
            let a = value(w, st.stack[n - 2]);
            let b = value(w, st.stack[n - 1]);
            let (k, goes) = taken(i.op, a, b).unwrap();
            plain_step(st, fr, i) matches Ok(st1) && st1.stack == st.stack.take(n - k)
                && st1.stmts == st.stmts && (st1.term matches TermV::Cond { cond } && truth(
                value(w, cond),
            ) == goes)
        }),
{
    let n = st.stack.len();
    let e = st.stack[n - 1];
    assert(st.stack.drop_last() =~= st.stack.take(n - 1));
    if n >= 2 {
        assert(st.stack.drop_last().drop_last() =~= st.stack.take(n - 2));
        assert(st.stack.drop_last().last() == st.stack[n - 2]);
    }
    reveal_with_fuel(value, 2);
    assert forall|op: BinOp| crate::meaning::compared(op, 0, 0) is Some && !(op is LogAnd || op
        is LogOr) implies truth(value(w, #[trigger] tested(e, op))) == crate::meaning::compared(
        op,
        value(w, e),
        0,
    ).unwrap() by {}
}

} // verus!
