//! What instructions on the top of the stack do: they move slots as the virtual machine does.
use crate::builder::{plain_step, FrameV};
use crate::bytecode::{low16, InstructionV, Opcode};
use crate::classes::member_ref_at;
use crate::expr::{same_expr, type_of, ConstValV, ExprV};
use crate::meaning::{value, wrap32, wrap64, Valuation};
use crate::sim::{is_implicit_check, popped, popped_args, wide, SimV, TermV};
use crate::stmt::StmtV;
use crate::types::{erase, JTypeV};
use crate::values::effectful;
use vstd::prelude::*;

verus! {

/// The number of slots that values take.
pub open spec fn width(v: Seq<ExprV>) -> nat
    decreases v.len(),
{
    if v.len() == 0 {
        0
    } else {
        width(v.drop_last()) + if wide(v.last()) {
            2nat
        } else {
            1nat
        }
    }
}

/// How many slots an instruction copies from the top of the stack, and below how many others
/// the copy goes.
pub open spec fn copied(o: Opcode) -> Option<(nat, nat)> {
    match o {
        Opcode::DupX1 => Some((1, 1)),
        Opcode::DupX2 => Some((1, 2)),
        Opcode::Dup2 => Some((2, 0)),
        Opcode::Dup2X1 => Some((2, 1)),
        Opcode::Dup2X2 => Some((2, 2)),
        _ => None,
    }
}

/// The statements that dropped values become: those that do something, in order.
pub open spec fn remaining(v: Seq<ExprV>) -> Seq<StmtV>
    decreases v.len(),
{
    if v.len() == 0 {
        seq![]
    } else if effectful(v.last()) {
        remaining(v.drop_last()).push(StmtV::ExprStmt(v.last()))
    } else {
        remaining(v.drop_last())
    }
}

/// One or two slots hold one value or two.
proof fn lemma_width(v: Seq<ExprV>)
    ensures
        width(v) >= v.len(),
        width(v) == 0 ==> v.len() == 0,
        width(v) == 1 ==> v.len() == 1 && !wide(v[0]),
        width(v) == 2 ==> (v.len() == 1 && wide(v[0])) || (v.len() == 2 && !wide(v[0]) && !wide(
            v[1],
        )),
    decreases v.len(),
{
    if v.len() > 0 {
        lemma_width(v.drop_last());
    }
}

/// An instruction that duplicates takes whole values from the top of the stack and puts a
/// copy of them below those under them, however many slots the values take. `dup2_x2` of two
/// values over one that takes two slots is not among them.
#[verifier::spinoff_prover]
#[verifier::rlimit(40)]
pub proof fn law_duplicates_go_below(
    st: SimV,
    fr: FrameV,
    i: InstructionV,
    base: Seq<ExprV>,
    under: Seq<ExprV>,
    top: Seq<ExprV>,
)
    requires
        copied(i.op) == Some((width(top), width(under))),
        !(i.op is Dup2X2 && top.len() == 2 && under.len() == 1),
        st.stack == base + under + top,
    ensures
        plain_step(st, fr, i) matches Ok(st1) && st1.stack == base + top + under + top && st1.stmts
            == st.stmts && st1.term == st.term,
{
    lemma_width(top);
    lemma_width(under);
    let n = st.stack.len() as int;
    let s = st.stack;
    let a = s.drop_last();
    let b = a.drop_last();
    let c = b.drop_last();
    assert(s.last() == top.last());
    assert(n >= 2 ==> a.last() == s[n - 2] && b =~= s.take(n - 2));
    assert(n >= 3 ==> b.last() == s[n - 3] && c =~= s.take(n - 3));
    assert(n >= 4 ==> c.last() == s[n - 4] && c.drop_last() =~= s.take(n - 4));
    assert(top.len() == 2 ==> s[n - 2] == top[0] && s[n - 1] == top[1]);
    if under.len() > 0 {
        let m = n - top.len() - under.len();
        assert(s[m] == under[0]);
        assert(under.len() == 2 ==> s[m + 1] == under[1]);
    }
    assert(s.take(base.len() as int) =~= base);
    assert(plain_step(st, fr, i) is Ok);
    if let Ok(st1) = plain_step(st, fr, i) {
        if under.len() == 0 {
            assert(base + under =~= base);
            assert(base + top + under =~= base + top);
        }
        assert(st1.stack.len() == base.len() + 2 * top.len() + under.len());
        assert(st1.stack =~= base + top + under + top);
    }
}

/// `swap` exchanges the two values on top of the stack.
pub proof fn law_swap_exchanges(
    st: SimV,
    fr: FrameV,
    i: InstructionV,
    base: Seq<ExprV>,
    a: ExprV,
    b: ExprV,
)
    requires
        i.op is Swap,
        st.stack == base.push(a).push(b),
    ensures
        plain_step(st, fr, i) matches Ok(st1) && st1.stack == base.push(b).push(a) && st1.stmts
            == st.stmts && st1.term == st.term,
{
    if let Ok(st1) = plain_step(st, fr, i) {
        assert(st1.stack =~= base.push(b).push(a));
    }
}

/// Values that are popped go; those that do something stay as statements, in the order in
/// which they were computed. A null check that the compiler put in goes without a trace.
pub proof fn law_popped_values_are_kept_in_order(
    st: SimV,
    fr: FrameV,
    i: InstructionV,
    base: Seq<ExprV>,
    top: Seq<ExprV>,
)
    requires
        st.stack == base + top,
        (i.op is Pop && width(top) == 1) || (i.op is Pop2 && width(top) == 2),
    ensures
        plain_step(st, fr, i) matches Ok(st1) && st1.stack == base && st1.term == st.term && (
        st1.stmts == st.stmts + remaining(top) || (i.op is Pop && st1.stmts == st.stmts
            && is_implicit_check(top[0], st1))),
{
    lemma_width(top);
    reveal_with_fuel(remaining, 3);
    if let Ok(st1) = plain_step(st, fr, i) {
        assert(st1.stack =~= base);
        if top.len() == 2 {
            assert(top.drop_last().last() == top[0]);
            assert(top.drop_last().drop_last() =~= Seq::<ExprV>::empty());
        } else {
            assert(top.drop_last() =~= Seq::<ExprV>::empty());
        }
        assert(st1.stmts =~= st.stmts + remaining(top) || (i.op is Pop && st1.stmts == st.stmts
            && is_implicit_check(top[0], st1)));
    }
}

/// The type to which an instruction converts.
pub open spec fn converts_to(o: Opcode) -> Option<JTypeV> {
    match o {
        Opcode::I2l | Opcode::F2l | Opcode::D2l => Some(JTypeV::Long),
        Opcode::I2f | Opcode::L2f | Opcode::D2f => Some(JTypeV::Float),
        Opcode::I2d | Opcode::L2d | Opcode::F2d => Some(JTypeV::Double),
        Opcode::L2i | Opcode::F2i | Opcode::D2i => Some(JTypeV::Int),
        Opcode::I2b => Some(JTypeV::Byte),
        Opcode::I2c => Some(JTypeV::Char),
        Opcode::I2s => Some(JTypeV::Short),
        _ => None,
    }
}

/// A conversion leaves the value converted; a value that has the type already, and a whole
/// number made wider, stay what they are.
pub proof fn law_conversion_converts(
    w: Valuation,
    st: SimV,
    fr: FrameV,
    i: InstructionV,
    base: Seq<ExprV>,
    e: ExprV,
)
    requires
        converts_to(i.op) is Some,
        st.stack == base.push(e),
        e matches ExprV::Const(c) ==> c is Int && i.op is I2l,
    ensures
        plain_step(st, fr, i) matches Ok(st1) && st1.stack.len() == st.stack.len()
            && st1.stack.drop_last() == base && value(w, st1.stack.last()) == (if erase(type_of(e))
            == converts_to(i.op).unwrap() || e is Const {
            value(w, e)
        } else {
            (w.cast)(converts_to(i.op).unwrap(), value(w, e))
        }) && st1.stmts == st.stmts && st1.term == st.term,
{
    assert(base.push(e).drop_last() =~= base);
    if let Ok(st1) = plain_step(st, fr, i) {
        assert(st1.stack.drop_last() =~= base);
    }
}

/// A negation leaves the value negated, a whole number within its type.
pub proof fn law_negation_negates(
    w: Valuation,
    st: SimV,
    fr: FrameV,
    i: InstructionV,
    base: Seq<ExprV>,
    e: ExprV,
)
    requires
        i.op is Ineg || i.op is Lneg || i.op is Fneg || i.op is Dneg,
        st.stack == base.push(e),
    ensures
        plain_step(st, fr, i) matches Ok(st1) && st1.stack.len() == st.stack.len()
            && st1.stack.drop_last() == base && st1.stmts == st.stmts && st1.term == st.term && (
        match e {
            ExprV::Const(ConstValV::Int(n)) => value(w, st1.stack.last()) == wrap32(-n),
            ExprV::Const(ConstValV::Long(n)) => value(w, st1.stack.last()) == wrap64(-n),
            ExprV::Const(_) => true,
            _ => value(w, st1.stack.last()) == (w.negative)(value(w, e)),
        }),
{
    assert(base.push(e).drop_last() =~= base);
    if let Ok(st1) = plain_step(st, fr, i) {
        assert(st1.stack.drop_last() =~= base);
    }
}

/// The arguments of a call are the topmost values, in the order in which they were pushed;
/// nothing else leaves the stack.
pub proof fn law_arguments_keep_their_order(st: SimV, n: nat)
    ensures
        st.stack.len() >= n ==> popped_args(st, n) is Ok,
        popped_args(st, n) matches Ok((args, st1)) ==> args.len() == n && st.stack == st1.stack
            + args && st1.stmts == st.stmts && st1.term == st.term,
    decreases n,
{
    if n > 0 && st.stack.len() > 0 {
        let st1 = popped(st)->Ok_0.1;
        law_arguments_keep_their_order(st1, (n - 1) as nat);
        if let Ok((args, st2)) = popped_args(st, n) {
            let front = popped_args(st1, (n - 1) as nat)->Ok_0.0;
            assert(args == front.push(st.stack.last()));
            assert(st1.stack == st2.stack + front);
            assert(st.stack =~= st1.stack.push(st.stack.last()));
            assert(st.stack =~= st2.stack + args);
        }
    } else if n == 0 {
        assert(st.stack =~= st.stack + Seq::<ExprV>::empty());
    }
}

/// A write to a field writes the topmost value, to the field of the object below it.
pub proof fn law_field_writes_take_the_top(
    st: SimV,
    fr: FrameV,
    i: InstructionV,
    base: Seq<ExprV>,
    obj: ExprV,
    e: ExprV,
    m: (Seq<char>, Seq<char>, Seq<char>),
)
    requires
        i.op is Putfield,
        st.stack == base.push(obj).push(e),
        member_ref_at(fr.pc, low16(i.a)) == Some(m),
    ensures
        plain_step(st, fr, i) matches Ok(st1) && st1.stack == base && st1.term == st.term
            && st1.stmts.len() == st.stmts.len() + 1 && st1.stmts.drop_last() == st.stmts && (
        st1.stmts.last() matches StmtV::ExprStmt(ExprV::Assign { target, op, value: v }) && *v == e
            && op is Plain && (*target matches ExprV::Field { owner, cls, name, is_static, .. }
            && cls == m.0 && name == m.1 && !is_static && (match owner {
            Some(o) => *o == obj,
            None => obj is This,
        }))),
{
    assert(base.push(obj).push(e).drop_last() =~= base.push(obj));
    assert(base.push(obj).drop_last() =~= base);
    if let Ok(st1) = plain_step(st, fr, i) {
        assert(st1.stmts.drop_last() =~= st.stmts);
    }
}

/// A write to an element writes the topmost value, at the index below it, in the array below
/// that. Writes at constant places can become part of a fresh array.
pub proof fn law_element_writes_take_the_top(
    st: SimV,
    fr: FrameV,
    i: InstructionV,
    base: Seq<ExprV>,
    array: ExprV,
    index: ExprV,
    e: ExprV,
)
    requires
        i.op is Iastore || i.op is Lastore || i.op is Fastore || i.op is Dastore || i.op is Aastore
            || i.op is Bastore || i.op is Castore || i.op is Sastore,
        st.stack == base.push(array).push(index).push(e),
        !(index is Const),
    ensures
        plain_step(st, fr, i) matches Ok(st1) && st1.stack == base && st1.term == st.term
            && st1.stmts.len() == st.stmts.len() + 1 && st1.stmts.drop_last() == st.stmts && (
        st1.stmts.last() matches StmtV::ExprStmt(ExprV::Assign { target, op, value: v }) && *v == e
            && op is Plain && (*target matches ExprV::ArrayIndex { array: a, index: k } && *a
            == array && *k == index)),
{
    assert(base.push(array).push(index).push(e).drop_last() =~= base.push(array).push(index));
    assert(base.push(array).push(index).drop_last() =~= base.push(array));
    assert(base.push(array).drop_last() =~= base);
    if let Ok(st1) = plain_step(st, fr, i) {
        assert(st1.stmts.drop_last() =~= st.stmts);
    }
}

/// What a block returns, throws or selects by is the topmost value. A return can take the
/// place of an assignment right before it of that value, or to that target.
pub proof fn law_blocks_end_with_the_top(
    st: SimV,
    fr: FrameV,
    i: InstructionV,
    base: Seq<ExprV>,
    e: ExprV,
)
    requires
        i.op is Ireturn || i.op is Lreturn || i.op is Freturn || i.op is Dreturn || i.op is Areturn
            || i.op is Athrow || ((i.op is Tableswitch || i.op is Lookupswitch)
            && i.switch_data is Some),
        st.stack == base.push(e),
    ensures
        plain_step(st, fr, i) matches Ok(st1) && st1.stack == base && (match st1.term {
            TermV::Throw(x) => i.op is Athrow && x == e && st1.stmts == st.stmts,
            TermV::Switch { selector, .. } => (i.op is Tableswitch || i.op is Lookupswitch)
                && selector == e && st1.stmts == st.stmts,
            TermV::Return(Some(x)) => !(i.op is Athrow || i.op is Tableswitch || i.op
                is Lookupswitch) && (x == e && st1.stmts == st.stmts || (st.stmts.len() > 0
                && st1.stmts == st.stmts.drop_last() && st.stmts.last() == StmtV::ExprStmt(x) && (
            x matches ExprV::Assign { target, op, value: v } && op is Plain && (same_expr(*v, e)
                || same_expr(*target, e))))),
            _ => false,
        }),
{
    assert(base.push(e).drop_last() =~= base);
}

} // verus!
