//! Bytecode to expressions and statements, block by block.
use crate::arrays::{
    keys_once, law_keys_stay_apart, lemma_keys_once_exprs, materialize_arrays,
    materialize_arrays_exprs, materialize_arrays_oexpr, materialized, materialized_exprs,
    materialized_oexpr, pending, PendingArray, PendingArrayV,
};
use crate::block::{clone_pairs, clone_pcs};
use crate::booleans::int_value;
use crate::bytecode::{
    instructions, int_load_slot, int_store_slot, low16, operation_of, opt_switch, prim_type, to_u16,
    Instruction, InstructionV, Opcode, Operation, Prim, SwitchData, SwitchDataV,
};
use crate::classes::{
    class_name_at, constant_at, member_ref_at, string_at, ClassPool, ClassPoolV, Constant,
    ConstantV, PoolClass, PoolClassV,
};
use crate::expr::{
    bsm_args, clone_expr, expr_eq, exprs, exprs_eq, opt_box, opt_exprs, same_expr, same_exprs,
    type_of, AssignOp, BinOp, BsmArg, ConstVal, ConstValV, Expr, ExprV,
};
use crate::forward::{forwards_load, no_forwards, Forwards, ForwardsV};
use crate::indy::{dynamically_invoked, invoke_dynamic};
use crate::invoke::{field_type, invoke, invoked, member_type, owner_expr, written_owner};
use crate::signatures::{field_desc, opt_java, parse_field_descriptor};
use crate::sim::{
    do_dup2, do_dup2_x1, do_dup2_x2, do_dup_x1, do_dup_x2, do_pop, do_pop2, do_swap, emitted, ended,
    failure, marks_below, marks_without, op_dup2, op_dup2_x1, op_dup2_x2, op_dup_x1, op_dup_x2,
    op_pop, op_pop2, op_swap, popped, popped2, popped3, popped_args, pushed, same_declared,
    step_outcome, BuildError, Sim, SimV, SwitchTargets, SwitchTargetsV, Term, TermV,
};
use crate::stmt::{stmts, Stmt, StmtV};
use crate::text::{append_decimal, append_int, decimal, int_text};
use crate::types::{
    erase_generic, has_prefix, java_types, object, object_type, starts_with, str_eq, GType, JType,
    JTypeV, MethodDescriptor, MethodDescriptorV, TypeRef, TypeRefV,
};
use crate::values::{
    assignment, class_name_to_type, class_type, conversion, convert, fold_const_binop, folded,
    int_const, mk_assign, neg, negation,
};
use crate::var::{has_var, is_param, is_synthetic, var_at, var_slot, var_type, VarTable, VarTableV};
use vstd::prelude::*;

verus! {

/// What a block is built against.
#[derive(Debug)]
pub struct Frame<'a> {
    pub pc: &'a PoolClass,
    pub pool: &'a ClassPool,
    pub vt: &'a VarTable,
    pub is_static: bool,
    pub fwd: &'a Forwards,
}

/// Model of [`Frame`].
pub ghost struct FrameV {
    pub pc: PoolClassV,
    pub pool: ClassPoolV,
    pub vt: VarTableV,
    pub is_static: bool,
    pub fwd: ForwardsV,
}

impl<'a> Frame<'a> {
    pub open spec fn view(&self) -> FrameV {
        FrameV {
            pc: self.pc@,
            pool: self.pool@,
            vt: self.vt@,
            is_static: self.is_static,
            fwd: self.fwd@,
        }
    }
}

// ---------------------------------------------------------------------
// Locals.

/// A read of variable `v`.
pub open spec fn local(vt: VarTableV, v: u32) -> ExprV {
    ExprV::Local { var: v, ty: var_type(vt, v) }
}

/// A read of variable `v`.
fn make_local(vt: &VarTable, v: u32) -> (r: Expr)
    ensures
        r@ == local(vt@, v),
{
    Expr::Local { var: v, ty: vt.var_type(v) }
}

/// Variable `v` is named `this`.
pub open spec fn is_this(vt: VarTableV, v: u32) -> bool {
    has_var(vt, v) && vt.vars[v as int].name == "this"@
}

/// Whether variable `v` is named `this`.
fn named_this(vt: &VarTable, v: u32) -> (r: bool)
    ensures
        r == is_this(vt@, v),
{
    (v as usize) < vt.vars.len() && str_eq(vt.vars[v as usize].name.as_str(), "this")
}

/// The error for a slot without a variable.
pub open spec fn no_var(slot: u16, pc: u16) -> Seq<char> {
    "no var for slot "@ + decimal(slot as nat) + " @"@ + decimal(pc as nat)
}

/// The error for a slot without a variable.
fn no_var_error(slot: u16, pc: u16) -> (r: BuildError)
    ensures
        r.0@ == no_var(slot, pc),
{
    let mut s: String = "no var for slot ".to_owned();
    append_decimal(&mut s, slot as u128);
    s.append(" @");
    append_decimal(&mut s, pc as u128);
    BuildError(s)
}

/// The variable that a store to `slot` writes: the one that is live right after it,
/// else the one at the store itself.
pub open spec fn stored_var(vt: VarTableV, slot: u16, at_pc: u16, next_pc: u16) -> Option<u32> {
    match var_at(vt, slot, next_pc) {
        Some(v) => Some(v),
        None => var_at(vt, slot, at_pc),
    }
}

/// The variable that a store writes.
fn find_stored(vt: &VarTable, slot: u16, at_pc: u16, next_pc: u16) -> (r: Option<u32>)
    ensures
        r == stored_var(vt@, slot, at_pc, next_pc),
{
    match vt.at(slot, next_pc) {
        Some(v) => Some(v),
        None => vt.at(slot, at_pc),
    }
}

/// The range of variable `v` starts at `pc`.
pub open spec fn range_starts(vt: VarTableV, v: u32, pc: u16) -> bool {
    if has_var(vt, v) {
        vt.vars[v as int].range_start == pc
    } else {
        pc == 0
    }
}

/// Whether the range of variable `v` starts at `pc`.
fn starts_at(vt: &VarTable, v: u32, pc: u16) -> (r: bool)
    ensures
        r == range_starts(vt@, v, pc),
{
    if (v as usize) < vt.vars.len() {
        vt.vars[v as usize].range_start == pc
    } else {
        pc == 0
    }
}

/// A store declares the variable: it is not yet declared, and its range starts here, or
/// its name was made up, or there is no debug information.
pub open spec fn declares_here(
    vt: VarTableV,
    v: u32,
    at_pc: u16,
    next_pc: u16,
    declared: Seq<u32>,
) -> bool {
    !is_param(vt, v) && !declared.contains(v) && (range_starts(vt, v, next_pc) || range_starts(
        vt,
        v,
        at_pc,
    ) || is_synthetic(vt, v) || !vt.has_lvt)
}

/// A store of `val` to `slot`.
pub open spec fn stored(
    st: SimV,
    fr: FrameV,
    slot: u16,
    at_pc: u16,
    next_pc: u16,
    val: ExprV,
) -> Result<SimV, Seq<char>> {
    if !fr.is_static && slot == 0 && val is This {
        Ok(st)
    } else {
        match stored_var(fr.vt, slot, at_pc, next_pc) {
            None => Err("no var for store slot "@ + decimal(slot as nat)),
            Some(v) => {
                let s = if declares_here(fr.vt, v, at_pc, next_pc, st.declared) {
                    StmtV::LocalDef { var: v, init: Some(val), is_final: false, force_type: false }
                } else {
                    assignment(local(fr.vt, v), val)
                };
                Ok(
                    SimV {
                        declared: if is_param(fr.vt, v) {
                            st.declared
                        } else {
                            st.declared.push(v)
                        },
                        ..emitted(st, s)
                    },
                )
            },
        }
    }
}

/// A store of `val` to `slot`.
fn store(st: &mut Sim, fr: &Frame, slot: u16, at_pc: u16, next_pc: u16, val: Expr) -> (r: Result<
    (),
    BuildError,
>)
    ensures
        step_outcome(r, old(st)@, final(st)@, stored(old(st)@, fr@, slot, at_pc, next_pc, val@)),
{
    if !fr.is_static && slot == 0 && matches!(val, Expr::This) {
        return Ok(());
    }
    let v = match find_stored(fr.vt, slot, at_pc, next_pc) {
        Some(v) => v,
        None => {
            let mut s: String = "no var for store slot ".to_owned();
            append_decimal(&mut s, slot as u128);
            return Err(BuildError(s));
        },
    };
    let param = fr.vt.is_param(v);
    let here = !param && !crate::text::contains_u32(&st.declared, v) && (starts_at(
        fr.vt,
        v,
        next_pc,
    ) || starts_at(fr.vt, v, at_pc) || fr.vt.is_synthetic(v) || !fr.vt.has_lvt);
    let s = if here {
        Stmt::LocalDef { var: v, init: Some(val), is_final: false, force_type: false }
    } else {
        mk_assign(make_local(fr.vt, v), val)
    };
    st.emit(s);
    if !param {
        st.declared.push(v);
    }
    Ok(())
}

/// A store whose value is the copy that a `dup` made: where the variable is a parameter,
/// the original becomes an assignment inside the expression. The value is left for an
/// ordinary store otherwise.
pub open spec fn inlined_store(
    st: SimV,
    fr: FrameV,
    slot: u16,
    at_pc: u16,
    next_pc: u16,
    val: ExprV,
) -> (bool, SimV) {
    let n = st.stack.len();
    if n == 0 {
        (false, st)
    } else {
        let st1 = SimV { marks: marks_without(st.marks, n - 1), ..st };
        match stored_var(fr.vt, slot, at_pc, next_pc) {
            Some(v) => if st.marks.contains((n - 1) as usize) && is_param(fr.vt, v) {
                (
                    true,
                    SimV {
                        stack: st.stack.drop_last().push(
                            ExprV::Assign {
                                target: Box::new(local(fr.vt, v)),
                                op: AssignOp::Plain,
                                value: Box::new(val),
                            },
                        ),
                        marks: marks_below(st1.marks, n - 1),
                        ..st1
                    },
                )
            } else {
                (false, st1)
            },
            None => (false, st1),
        }
    }
}

/// A store whose value is the copy that a `dup` made; the value where an ordinary store
/// is left to do.
fn inline_dup_store(
    st: &mut Sim,
    fr: &Frame,
    slot: u16,
    at_pc: u16,
    next_pc: u16,
    val: Expr,
) -> (r: Option<Expr>)
    ensures
        (r is None, final(st)@) == inlined_store(old(st)@, fr@, slot, at_pc, next_pc, val@),
        r matches Some(e) ==> e@ == val@,
{
    assert(exprs(st.stack@).len() == st.stack@.len());
    let n = st.stack.len();
    if n == 0 {
        return Some(val);
    }
    let marked = st.take_mark(n - 1);
    if !marked {
        return Some(val);
    }
    let v = match find_stored(fr.vt, slot, at_pc, next_pc) {
        Some(v) => v,
        None => {
            return Some(val);
        },
    };
    if !fr.vt.is_param(v) {
        return Some(val);
    }
    let ghost all = exprs(st.stack@);
    let _ = st.stack.pop();
    assert(exprs(st.stack@) =~= all.drop_last());
    st.clear_marks(n - 1);
    proof {
        reveal_with_fuel(Expr::view, 2);
    }
    st.push(
        Expr::Assign {
            target: Box::new(make_local(fr.vt, v)),
            op: AssignOp::Plain,
            value: Box::new(val),
        },
    );
    None
}

/// The instruction at `i` starts a monitor.
pub open spec fn enters_monitor(ins: Seq<InstructionV>, i: int) -> bool {
    i < ins.len() && ins[i].op is Monitorenter
}

/// A store instruction. A reference stored right before a monitor starts is dropped: the
/// monitor holds it. A value that the next instruction loads again stays on the stack.
pub open spec fn op_store(
    st: SimV,
    fr: FrameV,
    slot: u16,
    at_pc: u16,
    next_pc: u16,
    before_monitor: bool,
) -> Result<SimV, Seq<char>> {
    if fr.fwd.stores.contains(at_pc) {
        Ok(st)
    } else {
    match popped(st) {
        Ok((val, st1)) => if before_monitor {
            Ok(st1)
        } else {
            let (done, st2) = inlined_store(st1, fr, slot, at_pc, next_pc, val);
            if done {
                Ok(st2)
            } else {
                stored(st2, fr, slot, at_pc, next_pc, val)
            }
        },
        Err(x) => Err(x),
    }
    }
}

/// A store instruction.
fn do_store(
    st: &mut Sim,
    fr: &Frame,
    slot: u16,
    at_pc: u16,
    next_pc: u16,
    before_monitor: bool,
) -> (r: Result<(), BuildError>)
    ensures
        step_outcome(
            r,
            old(st)@,
            final(st)@,
            op_store(old(st)@, fr@, slot, at_pc, next_pc, before_monitor),
        ),
{
    if fr.fwd.drops_store(at_pc) {
        return Ok(());
    }
    let val = match st.pop() {
        Ok(x) => x,
        Err(x) => {
            return Err(x);
        },
    };
    if before_monitor {
        return Ok(());
    }
    match inline_dup_store(st, fr, slot, at_pc, next_pc, val) {
        Some(left) => store(st, fr, slot, at_pc, next_pc, left),
        None => Ok(()),
    }
}

// ---------------------------------------------------------------------
// Arrays.

/// The value of an `int` constant.
pub open spec fn as_int(e: ExprV) -> Option<i32> {
    match e {
        ExprV::Const(ConstValV::Int(i)) => Some(i),
        _ => None,
    }
}

/// The value of an `int` constant.
fn int_of(e: &Expr) -> (r: Option<i32>)
    ensures
        r == as_int(e@),
{
    match e {
        Expr::Const(ConstVal::Int(i)) => Some(*i),
        _ => None,
    }
}

/// Two new arrays of the same type and dimensions.
pub open spec fn same_shape(a: ExprV, b: ExprV) -> bool {
    match (a, b) {
        (
            ExprV::NewArray { elem: e1, dims: d1, trailing_dims: t1, .. },
            ExprV::NewArray { elem: e2, dims: d2, trailing_dims: t2, .. },
        ) => t1 == t2 && e1 == e2 && same_exprs(d1, d2),
        _ => false,
    }
}

/// Whether two new arrays have the same type and dimensions.
fn shape_eq(a: &Expr, b: &Expr) -> (r: bool)
    ensures
        r == same_shape(a@, b@),
{
    match (a, b) {
        (
            Expr::NewArray { elem: e1, dims: d1, trailing_dims: t1, .. },
            Expr::NewArray { elem: e2, dims: d2, trailing_dims: t2, .. },
        ) => *t1 == *t2 && e1.same(e2) && exprs_eq(d1, d2),
        _ => false,
    }
}

/// The topmost array on the stack of the same shape as `arr`.
pub open spec fn twin_index(stack: Seq<ExprV>, arr: ExprV) -> Option<int>
    decreases stack.len(),
{
    if stack.len() == 0 {
        None
    } else if same_shape(stack.last(), arr) {
        Some(stack.len() - 1)
    } else {
        twin_index(stack.drop_last(), arr)
    }
}

/// The topmost array on the stack of the same shape as `arr`.
#[verifier::loop_isolation(false)]
fn find_twin(stack: &Vec<Expr>, arr: &Expr) -> (r: Option<usize>)
    ensures
        match r {
            Some(k) => k < stack.len() && twin_index(exprs(stack@), arr@) == Some(k as int),
            None => twin_index(exprs(stack@), arr@) is None,
        },
{
    let ghost all = exprs(stack@);
    let mut i: usize = stack.len();
    assert(all.take(i as int) =~= all);
    while i > 0
        invariant
            i <= stack.len(),
            twin_index(all.take(i as int), arr@) == twin_index(all, arr@),
        decreases i,
    {
        i -= 1;
        assert(all.take(i + 1).drop_last() =~= all.take(i as int));
        assert(all.take(i + 1).last() == stack@[i as int]@);
        if shape_eq(&stack[i], arr) {
            return Some(i);
        }
    }
    None
}

/// The first dimension leaves room for one more value after `n`.
pub open spec fn has_room(dims: Seq<ExprV>, n: nat) -> bool {
    if dims.len() == 0 {
        true
    } else {
        as_int(dims[0]) matches Some(c) ==> c < 0 || n < c
    }
}

/// An array with one more value where `i` is the next index, and whether it is.
pub open spec fn with_value(array: ExprV, i: i32, val: ExprV) -> (ExprV, bool) {
    match array {
        ExprV::NewArray { elem, dims, trailing_dims, init } => {
            let vals = match init {
                Some(v) => v,
                None => seq![],
            };
            let next = i >= 0 && i == vals.len() && has_room(dims, vals.len())
                && vals.len() < 65536;
            (
                ExprV::NewArray {
                    elem,
                    dims,
                    trailing_dims,
                    init: Some(
                        if next {
                            vals.push(val)
                        } else {
                            vals
                        },
                    ),
                },
                next,
            )
        },
        _ => (array, false),
    }
}

/// Whether the first dimension leaves room for one more value after `n`.
fn room(dims: &Vec<Expr>, n: usize) -> (r: bool)
    ensures
        r == has_room(exprs(dims@), n as nat),
{
    assert(exprs(dims@).len() == dims@.len());
    if dims.len() == 0 {
        return true;
    }
    assert(exprs(dims@)[0] == dims@[0]@);
    match int_of(&dims[0]) {
        Some(c) => c < 0 || n < c as usize,
        None => true,
    }
}

/// Adds a value to an array where `i` is the next index; whether it is.
fn fold_value(array: &mut Expr, i: i32, val: &Expr) -> (r: bool)
    ensures
        (final(array)@, r) == with_value(old(array)@, i, val@),
{
    match array {
        Expr::NewArray { dims, init, .. } => {
            let mut vals: Vec<Expr> = Vec::new();
            assert(exprs(vals@) =~= seq![]);
            let ghost start = opt_exprs(*init);
            if let Some(v) = init {
                assert(start == Some(exprs(v@)));
                core::mem::swap(v, &mut vals);
            }
            let ghost before = exprs(vals@);
            assert(before.len() == vals@.len());
            let next = i >= 0 && i as usize == vals.len() && room(dims, vals.len()) && vals.len()
                < 65536;
            if next {
                vals.push(clone_expr(val));
                assert(exprs(vals@) =~= before.push(val@));
            }
            *init = Some(vals);
            assert(opt_exprs(*init) == Some(exprs(vals@)));
            next
        },
        _ => false,
    }
}

/// A new array without values.
pub open spec fn fresh_array(t: JTypeV, dims: Seq<ExprV>, trailing_dims: u8) -> ExprV {
    ExprV::NewArray { elem: TypeRefV::J(t), dims, trailing_dims, init: None }
}

/// A new array without values.
fn make_array(t: JType, dims: Vec<Expr>, trailing_dims: u8) -> (r: Expr)
    ensures
        r@ == fresh_array(t@, exprs(dims@), trailing_dims),
{
    let init: Option<Vec<Expr>> = None;
    assert(opt_exprs(init) is None);
    Expr::NewArray { elem: TypeRef::J(t), dims, trailing_dims, init }
}

/// The element type for a code of `newarray`.
pub open spec fn element_code(code: i32) -> Option<JTypeV> {
    if code == 4 {
        Some(JTypeV::Boolean)
    } else if code == 5 {
        Some(JTypeV::Char)
    } else if code == 6 {
        Some(JTypeV::Float)
    } else if code == 7 {
        Some(JTypeV::Double)
    } else if code == 8 {
        Some(JTypeV::Byte)
    } else if code == 9 {
        Some(JTypeV::Short)
    } else if code == 10 {
        Some(JTypeV::Int)
    } else if code == 11 {
        Some(JTypeV::Long)
    } else {
        None
    }
}

/// The element type for a code of `newarray`.
fn element_of(code: i32) -> (r: Option<JType>)
    ensures
        opt_java(r) == element_code(code),
{
    match code {
        4 => Some(JType::Boolean),
        5 => Some(JType::Char),
        6 => Some(JType::Float),
        7 => Some(JType::Double),
        8 => Some(JType::Byte),
        9 => Some(JType::Short),
        10 => Some(JType::Int),
        11 => Some(JType::Long),
        _ => None,
    }
}

/// How many `[` a text starts with.
pub open spec fn leading_brackets(text: Seq<char>) -> nat
    decreases text.len(),
{
    if text.len() > 0 && text[0] == '[' {
        1 + leading_brackets(text.skip(1))
    } else {
        0
    }
}

/// How many `[` a text starts with.
#[verifier::loop_isolation(false)]
fn count_brackets(text: &str) -> (r: usize)
    ensures
        r == leading_brackets(text@),
{
    let n = text.unicode_len();
    let mut i: usize = 0;
    assert(text@.skip(0) =~= text@);
    while i < n && text.get_char(i) == '['
        invariant
            i <= n,
            i + leading_brackets(text@.skip(i as int)) == leading_brackets(text@),
        decreases n - i,
    {
        assert(text@.skip(i as int).skip(1) =~= text@.skip(i + 1));
        assert(text@.skip(i as int)[0] == '[');
        i += 1;
    }
    i
}

/// `t` without its outer `n` array levels.
pub open spec fn peeled(t: JTypeV, n: nat) -> JTypeV
    decreases n,
{
    if n == 0 {
        t
    } else {
        match t {
            JTypeV::Array(e) => peeled(*e, (n - 1) as nat),
            _ => t,
        }
    }
}

/// `t` without its outer `n` array levels.
fn peel(t: JType, n: usize) -> (r: JType)
    ensures
        r@ == peeled(t@, n as nat),
    decreases n,
{
    if n == 0 {
        return t;
    }
    match t {
        JType::Array(e) => peel(*e, n - 1),
        other => other,
    }
}

/// The component type that a class constant names.
pub open spec fn component(cls: Seq<char>, levels: u8) -> JTypeV {
    if levels > 0 {
        match field_desc(cls) {
            Some(t) => t,
            None => JTypeV::Object(cls),
        }
    } else {
        JTypeV::Object(cls)
    }
}

/// The component type that a class constant names.
fn component_type(cls: &str, levels: u8) -> (r: JType)
    ensures
        r@ == component(cls@, levels),
{
    if levels > 0 {
        match parse_field_descriptor(cls) {
            Some(t) => t,
            None => JType::Object(cls.to_owned()),
        }
    } else {
        JType::Object(cls.to_owned())
    }
}

// ---------------------------------------------------------------------
// Values.

/// A static field.
pub open spec fn static_field(fr: FrameV, m: (Seq<char>, Seq<char>, Seq<char>)) -> ExprV {
    ExprV::Field {
        owner: None,
        cls: m.0,
        name: m.1,
        ty: member_type(fr.pc, fr.pool, m.0, m.1, m.2),
        is_static: true,
    }
}

/// A field of `obj`.
pub open spec fn instance_field(
    fr: FrameV,
    obj: ExprV,
    m: (Seq<char>, Seq<char>, Seq<char>),
) -> ExprV {
    ExprV::Field {
        owner: written_owner(fr.pc, obj, m.0),
        cls: m.0,
        name: m.1,
        ty: member_type(fr.pc, fr.pool, m.0, m.1, m.2),
        is_static: false,
    }
}

/// A field.
fn make_field(
    fr: &Frame,
    owner: Option<Box<Expr>>,
    cls: &str,
    name: &str,
    desc: &str,
    is_static: bool,
) -> (r: Expr)
    ensures
        r@ == (ExprV::Field {
            owner: opt_box(owner),
            cls: cls@,
            name: name@,
            ty: member_type(fr@.pc, fr@.pool, cls@, name@, desc@),
            is_static,
        }),
{
    Expr::Field {
        owner,
        cls: cls.to_owned(),
        name: name.to_owned(),
        ty: field_type(fr.pc, fr.pool, cls, name, desc),
        is_static,
    }
}

/// The tag of a comparison of that type.
pub open spec fn comparison_name(p: Prim) -> Seq<char> {
    match p {
        Prim::Long => "\u{0}cmpJ"@,
        Prim::Float => "\u{0}cmpF"@,
        _ => "\u{0}cmpD"@,
    }
}

/// A comparison that the next branch takes apart.
pub open spec fn comparison(l: ExprV, r: ExprV, p: Prim) -> ExprV {
    ExprV::Invokedynamic {
        name: comparison_name(p),
        desc: MethodDescriptorV { args: seq![prim_type(p), prim_type(p)], ret: JTypeV::Int },
        args: seq![l, r],
        bsm_text: seq![],
        bsm_static_args: seq![],
    }
}

/// A comparison that the next branch takes apart.
fn make_comparison(l: Expr, r: Expr, p: Prim) -> (e: Expr)
    ensures
        e@ == comparison(l@, r@, p),
{
    let name = match p {
        Prim::Long => "\u{0}cmpJ".to_owned(),
        Prim::Float => "\u{0}cmpF".to_owned(),
        _ => "\u{0}cmpD".to_owned(),
    };
    let mut types: Vec<JType> = Vec::new();
    types.push(p.java_type());
    types.push(p.java_type());
    assert(java_types(types@) =~= seq![prim_type(p), prim_type(p)]);
    let mut args: Vec<Expr> = Vec::new();
    args.push(l);
    args.push(r);
    assert(exprs(args@) =~= seq![l@, r@]);
    let text: String = String::new();
    assert(text@ =~= seq![]);
    let statics: Vec<BsmArg> = Vec::new();
    assert(bsm_args(statics@) =~= seq![]);
    let desc = MethodDescriptor { args: types, ret: JType::Int };
    Expr::Invokedynamic { name, desc, args, bsm_text: text, bsm_static_args: statics }
}

/// The condition that a branch on `e` tests.
pub open spec fn tested(e: ExprV, op: BinOp) -> ExprV {
    match e {
        ExprV::Invokedynamic { name, args, .. } => if has_prefix(name, "\u{0}cmp"@) && args.len()
            == 2 {
            ExprV::Bin { op, l: Box::new(args[0]), r: Box::new(args[1]), ty: None }
        } else {
            ExprV::Bin { op, l: Box::new(e), r: Box::new(int_value(0)), ty: None }
        },
        _ => ExprV::Bin { op, l: Box::new(e), r: Box::new(int_value(0)), ty: None },
    }
}

/// Whether an expression is a comparison that a branch takes apart.
fn is_comparison(e: &Expr) -> (r: bool)
    ensures
        r == (e@ matches ExprV::Invokedynamic { name, args, .. } && (has_prefix(name, "\u{0}cmp"@)
            && args.len() == 2)),
{
    match e {
        Expr::Invokedynamic { name, args, .. } => {
            assert(exprs(args@).len() == args@.len());
            starts_with(name.as_str(), "\u{0}cmp") && args.len() == 2
        },
        _ => false,
    }
}

/// The condition that a branch on `e` tests.
fn test_value(e: Expr, op: BinOp) -> (r: Expr)
    ensures
        r@ == tested(e@, op),
{
    proof {
        reveal_with_fuel(Expr::view, 2);
    }
    if is_comparison(&e) {
        return match e {
            Expr::Invokedynamic { args, .. } => {
                let mut args = args;
                assert(exprs(args@).len() == args@.len());
                assert(exprs(args@)[0] == args@[0]@);
                assert(exprs(args@)[1] == args@[1]@);
                let second = args.remove(1);
                let first = args.remove(0);
                Expr::Bin { op, l: Box::new(first), r: Box::new(second), ty: None }
            },
            other => other,
        };
    }
    Expr::Bin { op, l: Box::new(e), r: Box::new(int_const(0)), ty: None }
}

/// The targets of a switch.
pub open spec fn targets_of(d: SwitchDataV) -> SwitchTargetsV {
    match d {
        SwitchDataV::Table { low, targets } => SwitchTargetsV::Table { low, targets },
        SwitchDataV::Lookup { pairs } => SwitchTargetsV::Lookup { pairs },
    }
}

/// The assignment that a return of `e` returns instead.
pub open spec fn merged_return(v: Seq<StmtV>, e: ExprV) -> Option<ExprV> {
    if v.len() == 0 {
        None
    } else {
        match v.last() {
            StmtV::ExprStmt(a) => match a {
                ExprV::Assign { target, op, value } => if op is Plain && (same_expr(*value, e)
                    || same_expr(*target, e)) {
                    Some(a)
                } else {
                    None
                },
                _ => None,
            },
            _ => None,
        }
    }
}

/// Whether a return of `e` returns the last assignment instead.
fn returns_assignment(v: &Vec<Stmt>, e: &Expr) -> (r: bool)
    ensures
        r == (merged_return(stmts(v@), e@) is Some),
{
    assert(stmts(v@).len() == v@.len());
    if v.len() == 0 {
        return false;
    }
    let i = v.len() - 1;
    assert(stmts(v@)[i as int] == v@[i as int]@);
    proof {
        reveal_with_fuel(Expr::view, 2);
    }
    match &v[i] {
        Stmt::ExprStmt(Expr::Assign { target, op, value }) => matches!(op, AssignOp::Plain) && (
        expr_eq(value, e) || expr_eq(target, e)),
        _ => false,
    }
}

/// The type of a checked cast: that of the array itself for a cast of its `clone()` to
/// the erasure.
pub open spec fn clone_cast(e: ExprV, t: JTypeV) -> TypeRefV {
    let plain = TypeRefV::J(t);
    match e {
        ExprV::Method { name, owner, .. } => match owner {
            Some(o) => if name == "clone"@ && t is Array {
                match type_of(*o) {
                    TypeRefV::G(g) => if g is Array && erase_generic(g) == t {
                        TypeRefV::G(g)
                    } else {
                        plain
                    },
                    TypeRefV::J(_) => plain,
                }
            } else {
                plain
            },
            None => plain,
        },
        _ => plain,
    }
}

/// The type of a checked cast.
fn cast_type(e: &Expr, t: JType) -> (r: TypeRef)
    ensures
        r@ == clone_cast(e@, t@),
{
    if let Expr::Method { name, owner, .. } = e {
        assert(opt_box(*owner) == (match owner {
            Some(o) => Some(Box::new(o@)),
            None => None,
        }));
        if let Some(o) = owner {
            if str_eq(name.as_str(), "clone") && matches!(t, JType::Array(_)) {
                if let TypeRef::G(g) = o.type_ref() {
                    if matches!(g, GType::Array(_)) && g.erased().same(&t) {
                        return TypeRef::G(g);
                    }
                }
            }
        }
    }
    TypeRef::J(t)
}

// ---------------------------------------------------------------------
// Instructions without lookahead.

/// `ldc`: pushes the constant at `idx`.
pub open spec fn op_ldc(st: SimV, fr: FrameV, idx: u16) -> Result<SimV, Seq<char>> {
    match constant_at(fr.pc, idx) {
        ConstantV::Unused => Err("ldc bad idx"@),
        ConstantV::Integer(i) => Ok(pushed(st, int_value(i))),
        ConstantV::Float(b) => Ok(pushed(st, ExprV::Const(ConstValV::Float(b)))),
        ConstantV::Str(_) => match string_at(fr.pc, idx) {
            Some(s) => Ok(pushed(st, ExprV::Const(ConstValV::Str(s)))),
            None => Err("ldc str"@),
        },
        ConstantV::Class(_) => match class_name_at(fr.pc, idx) {
            Some(n) => Ok(
                pushed(st, ExprV::Const(ConstValV::ClassLit(TypeRefV::J(class_type(n)))))
            ),
            None => Err("ldc class"@),
        },
        ConstantV::Dynamic(_, _) => Ok(pushed(st, ExprV::Const(ConstValV::Null))),
        _ => Err("ldc unexpected entry"@),
    }
}

/// `ldc`: pushes the constant at `idx`.
fn do_ldc(st: &mut Sim, fr: &Frame, idx: u16) -> (r: Result<(), BuildError>)
    ensures
        step_outcome(r, old(st)@, final(st)@, op_ldc(old(st)@, fr@, idx)),
{
    let c = match fr.pc.constant(idx) {
        Constant::Unused => {
            return Err(failure("ldc bad idx"));
        },
        Constant::Integer(i) => ConstVal::Int(*i),
        Constant::Float(b) => ConstVal::Float(*b),
        Constant::Str(_) => match fr.pc.string_value(idx) {
            Some(s) => ConstVal::Str(s.to_owned()),
            None => {
                return Err(failure("ldc str"));
            },
        },
        Constant::Class(_) => match fr.pc.class_name(idx) {
            Some(n) => ConstVal::ClassLit(TypeRef::J(class_name_to_type(n))),
            None => {
                return Err(failure("ldc class"));
            },
        },
        Constant::Dynamic(_, _) => ConstVal::Null,
        _ => {
            return Err(failure("ldc unexpected entry"));
        },
    };
    st.push(Expr::Const(c));
    Ok(())
}

/// `ldc2_w`: pushes the wide constant at `idx`.
pub open spec fn op_ldc2(st: SimV, fr: FrameV, idx: u16) -> Result<SimV, Seq<char>> {
    match constant_at(fr.pc, idx) {
        ConstantV::Unused => Err("ldc2w bad idx"@),
        ConstantV::Long(i) => Ok(pushed(st, ExprV::Const(ConstValV::Long(i)))),
        ConstantV::Double(b) => Ok(pushed(st, ExprV::Const(ConstValV::Double(b)))),
        _ => Err("ldc2w unexpected"@),
    }
}

/// `ldc2_w`: pushes the wide constant at `idx`.
fn do_ldc2(st: &mut Sim, fr: &Frame, idx: u16) -> (r: Result<(), BuildError>)
    ensures
        step_outcome(r, old(st)@, final(st)@, op_ldc2(old(st)@, fr@, idx)),
{
    let c = match fr.pc.constant(idx) {
        Constant::Unused => {
            return Err(failure("ldc2w bad idx"));
        },
        Constant::Long(i) => ConstVal::Long(*i),
        Constant::Double(b) => ConstVal::Double(*b),
        _ => {
            return Err(failure("ldc2w unexpected"));
        },
    };
    st.push(Expr::Const(c));
    Ok(())
}

/// A load of the local in `slot`; slot 0 of an instance method is `this`. A forwarded
/// value is on the stack already.
pub open spec fn op_load(st: SimV, fr: FrameV, slot: u16, pc: u16) -> Result<SimV, Seq<char>> {
    if forwards_load(fr.fwd, pc) {
        Ok(st)
    } else {
    match var_at(fr.vt, slot, pc) {
        Some(v) => Ok(
            pushed(
                st,
                if !fr.is_static && slot == 0 && is_this(fr.vt, v) {
                    ExprV::This
                } else {
                    local(fr.vt, v)
                },
            ),
        ),
        None => Err(no_var(slot, pc)),
    }
    }
}

/// A load of the local in `slot`; slot 0 of an instance method is `this`. A forwarded
/// value is on the stack already.
fn do_load(st: &mut Sim, fr: &Frame, slot: u16, pc: u16) -> (r: Result<(), BuildError>)
    ensures
        step_outcome(r, old(st)@, final(st)@, op_load(old(st)@, fr@, slot, pc)),
{
    if fr.fwd.drops_load(pc) {
        return Ok(());
    }
    match fr.vt.at(slot, pc) {
        Some(v) => {
            let e = if !fr.is_static && slot == 0 && named_this(fr.vt, v) {
                Expr::This
            } else {
                make_local(fr.vt, v)
            };
            st.push(e);
            Ok(())
        },
        None => Err(no_var_error(slot, pc)),
    }
}

/// A load of an array element.
pub open spec fn op_array_load(st: SimV) -> Result<SimV, Seq<char>> {
    match popped2(st) {
        Ok((index, array, st1)) => Ok(
            pushed(st1, ExprV::ArrayIndex { array: Box::new(array), index: Box::new(index) }),
        ),
        Err(x) => Err(x),
    }
}

/// A load of an array element.
fn do_array_load(st: &mut Sim) -> (r: Result<(), BuildError>)
    ensures
        step_outcome(r, old(st)@, final(st)@, op_array_load(old(st)@)),
{
    let (index, array) = match st.pop2() {
        Ok(x) => x,
        Err(x) => {
            return Err(x);
        },
    };
    st.push(Expr::ArrayIndex { array: Box::new(array), index: Box::new(index) });
    Ok(())
}

/// An operator on the two topmost values, computed where both are constants.
pub open spec fn op_arith(st: SimV, op: BinOp, p: Prim) -> Result<SimV, Seq<char>> {
    match popped2(st) {
        Ok((r, l, st1)) => Ok(
            pushed(
                st1,
                match folded(op, l, r) {
                    Some(c) => ExprV::Const(c),
                    None => ExprV::Bin {
                        op,
                        l: Box::new(l),
                        r: Box::new(r),
                        ty: Some(TypeRefV::J(prim_type(p))),
                    },
                },
            ),
        ),
        Err(x) => Err(x),
    }
}

/// An operator on the two topmost values, computed where both are constants.
fn do_arith(st: &mut Sim, op: BinOp, p: Prim) -> (r: Result<(), BuildError>)
    ensures
        step_outcome(r, old(st)@, final(st)@, op_arith(old(st)@, op, p)),
{
    let (r, l) = match st.pop2() {
        Ok(x) => x,
        Err(x) => {
            return Err(x);
        },
    };
    match fold_const_binop(op, &l, &r) {
        Some(c) => st.push(Expr::Const(c)),
        None => {
            let ty = Some(TypeRef::J(p.java_type()));
            st.push(Expr::Bin { op, l: Box::new(l), r: Box::new(r), ty });
        },
    }
    Ok(())
}

/// Negation of the topmost value.
pub open spec fn op_neg(st: SimV) -> Result<SimV, Seq<char>> {
    match popped(st) {
        Ok((e, st1)) => Ok(pushed(st1, negation(e))),
        Err(x) => Err(x),
    }
}

/// Negation of the topmost value.
fn do_neg(st: &mut Sim) -> (r: Result<(), BuildError>)
    ensures
        step_outcome(r, old(st)@, final(st)@, op_neg(old(st)@)),
{
    let e = match st.pop() {
        Ok(x) => x,
        Err(x) => {
            return Err(x);
        },
    };
    st.push(neg(e));
    Ok(())
}

/// Conversion of the topmost value.
pub open spec fn op_convert(st: SimV, p: Prim) -> Result<SimV, Seq<char>> {
    match popped(st) {
        Ok((e, st1)) => Ok(pushed(st1, conversion(e, prim_type(p)))),
        Err(x) => Err(x),
    }
}

/// Conversion of the topmost value.
fn do_convert(st: &mut Sim, p: Prim) -> (r: Result<(), BuildError>)
    ensures
        step_outcome(r, old(st)@, final(st)@, op_convert(old(st)@, p)),
{
    let e = match st.pop() {
        Ok(x) => x,
        Err(x) => {
            return Err(x);
        },
    };
    st.push(convert(e, p.java_type()));
    Ok(())
}

/// A comparison whose outcome the next branch tests.
pub open spec fn op_compare(st: SimV, p: Prim) -> Result<SimV, Seq<char>> {
    match popped2(st) {
        Ok((r, l, st1)) => Ok(pushed(st1, comparison(l, r, p))),
        Err(x) => Err(x),
    }
}

/// A comparison whose outcome the next branch tests.
fn do_compare(st: &mut Sim, p: Prim) -> (r: Result<(), BuildError>)
    ensures
        step_outcome(r, old(st)@, final(st)@, op_compare(old(st)@, p)),
{
    let (r, l) = match st.pop2() {
        Ok(x) => x,
        Err(x) => {
            return Err(x);
        },
    };
    st.push(make_comparison(l, r, p));
    Ok(())
}

/// A branch that compares the topmost value with zero, or the two values of a
/// comparison with each other.
pub open spec fn op_if_zero(st: SimV, op: BinOp) -> Result<SimV, Seq<char>> {
    match popped(st) {
        Ok((e, st1)) => Ok(ended(st1, TermV::Cond { cond: tested(e, op) })),
        Err(x) => Err(x),
    }
}

/// A branch that compares the topmost value with zero, or the two values of a
/// comparison with each other.
fn do_if_zero(st: &mut Sim, op: BinOp) -> (r: Result<(), BuildError>)
    ensures
        step_outcome(r, old(st)@, final(st)@, op_if_zero(old(st)@, op)),
{
    let e = match st.pop() {
        Ok(x) => x,
        Err(x) => {
            return Err(x);
        },
    };
    st.end(Term::Cond { cond: test_value(e, op) });
    Ok(())
}

/// A branch that compares the two topmost values.
pub open spec fn op_if_pair(st: SimV, op: BinOp) -> Result<SimV, Seq<char>> {
    match popped2(st) {
        Ok((r, l, st1)) => Ok(
            ended(
                st1,
                TermV::Cond { cond: ExprV::Bin { op, l: Box::new(l), r: Box::new(r), ty: None } },
            ),
        ),
        Err(x) => Err(x),
    }
}

/// A branch that compares the two topmost values.
fn do_if_pair(st: &mut Sim, op: BinOp) -> (r: Result<(), BuildError>)
    ensures
        step_outcome(r, old(st)@, final(st)@, op_if_pair(old(st)@, op)),
{
    let (r, l) = match st.pop2() {
        Ok(x) => x,
        Err(x) => {
            return Err(x);
        },
    };
    st.end(Term::Cond { cond: Expr::Bin { op, l: Box::new(l), r: Box::new(r), ty: None } });
    Ok(())
}

/// A branch that compares the topmost value with `null`.
pub open spec fn op_if_null(st: SimV, op: BinOp) -> Result<SimV, Seq<char>> {
    match popped(st) {
        Ok((e, st1)) => Ok(
            ended(
                st1,
                TermV::Cond {
                    cond: ExprV::Bin {
                        op,
                        l: Box::new(e),
                        r: Box::new(ExprV::Const(ConstValV::Null)),
                        ty: None,
                    },
                },
            ),
        ),
        Err(x) => Err(x),
    }
}

/// A branch that compares the topmost value with `null`.
fn do_if_null(st: &mut Sim, op: BinOp) -> (r: Result<(), BuildError>)
    ensures
        step_outcome(r, old(st)@, final(st)@, op_if_null(old(st)@, op)),
{
    let e = match st.pop() {
        Ok(x) => x,
        Err(x) => {
            return Err(x);
        },
    };
    proof {
        reveal_with_fuel(Expr::view, 2);
    }
    let r = Box::new(Expr::Const(ConstVal::Null));
    st.end(Term::Cond { cond: Expr::Bin { op, l: Box::new(e), r, ty: None } });
    Ok(())
}

/// A switch on the topmost value.
pub open spec fn op_switch(st: SimV, data: Option<SwitchDataV>) -> Result<SimV, Seq<char>> {
    match popped(st) {
        Ok((e, st1)) => match data {
            Some(d) => Ok(ended(st1, TermV::Switch { selector: e, targets: targets_of(d) })),
            None => Err("switch without data"@),
        },
        Err(x) => Err(x),
    }
}

/// A switch on the topmost value.
fn do_switch(st: &mut Sim, data: &Option<SwitchData>) -> (r: Result<(), BuildError>)
    ensures
        step_outcome(r, old(st)@, final(st)@, op_switch(old(st)@, opt_switch(*data))),
{
    let selector = match st.pop() {
        Ok(x) => x,
        Err(x) => {
            return Err(x);
        },
    };
    let targets = match data {
        Some(SwitchData::Table { low, targets }) => SwitchTargets::Table {
            low: *low,
            targets: clone_pcs(targets),
        },
        Some(SwitchData::Lookup { pairs }) => SwitchTargets::Lookup { pairs: clone_pairs(pairs) },
        None => {
            return Err(failure("switch without data"));
        },
    };
    st.end(Term::Switch { selector, targets });
    Ok(())
}

/// A return of the topmost value. A plain assignment right before it of the same value,
/// or to the same target, is returned itself.
pub open spec fn op_return_value(st: SimV) -> Result<SimV, Seq<char>> {
    match popped(st) {
        Ok((e, st1)) => match merged_return(st1.stmts, e) {
            Some(m) => Ok(
                ended(SimV { stmts: st1.stmts.drop_last(), ..st1 }, TermV::Return(Some(m))),
            ),
            None => Ok(ended(st1, TermV::Return(Some(e)))),
        },
        Err(x) => Err(x),
    }
}

/// A return of the topmost value. A plain assignment right before it of the same value,
/// or to the same target, is returned itself.
fn do_return_value(st: &mut Sim) -> (r: Result<(), BuildError>)
    ensures
        step_outcome(r, old(st)@, final(st)@, op_return_value(old(st)@)),
{
    let e = match st.pop() {
        Ok(x) => x,
        Err(x) => {
            return Err(x);
        },
    };
    let ghost st1 = st@;
    assert(stmts(st.stmts@).len() == st.stmts@.len());
    if returns_assignment(&st.stmts, &e) {
        let ghost all = stmts(st.stmts@);
        if let Some(s) = st.stmts.pop() {
            assert(stmts(st.stmts@) =~= all.drop_last());
            assert(s@ == all.last());
            if let Stmt::ExprStmt(m) = s {
                st.end(Term::Return(Some(m)));
            }
        }
        return Ok(());
    }
    st.end(Term::Return(Some(e)));
    Ok(())
}

/// A throw of the topmost value.
pub open spec fn op_throw(st: SimV) -> Result<SimV, Seq<char>> {
    match popped(st) {
        Ok((e, st1)) => Ok(ended(st1, TermV::Throw(e))),
        Err(x) => Err(x),
    }
}

/// A throw of the topmost value.
fn do_throw(st: &mut Sim) -> (r: Result<(), BuildError>)
    ensures
        step_outcome(r, old(st)@, final(st)@, op_throw(old(st)@)),
{
    let e = match st.pop() {
        Ok(x) => x,
        Err(x) => {
            return Err(x);
        },
    };
    st.end(Term::Throw(e));
    Ok(())
}

/// A read of a static field.
pub open spec fn op_get_static(st: SimV, fr: FrameV, idx: u16) -> Result<SimV, Seq<char>> {
    match member_ref_at(fr.pc, idx) {
        Some(m) => Ok(pushed(st, static_field(fr, m))),
        None => Err("bad member ref"@),
    }
}

/// A read of a static field.
fn do_get_static(st: &mut Sim, fr: &Frame, idx: u16) -> (r: Result<(), BuildError>)
    ensures
        step_outcome(r, old(st)@, final(st)@, op_get_static(old(st)@, fr@, idx)),
{
    match fr.pc.member_ref(idx) {
        Some((cls, name, desc)) => {
            let e = make_field(fr, None, cls, name, desc, true);
            st.push(e);
            Ok(())
        },
        None => Err(failure("bad member ref")),
    }
}

/// A write of a static field.
pub open spec fn op_put_static(st: SimV, fr: FrameV, idx: u16) -> Result<SimV, Seq<char>> {
    match popped(st) {
        Ok((e, st1)) => match member_ref_at(fr.pc, idx) {
            Some(m) => Ok(emitted(st1, assignment(static_field(fr, m), e))),
            None => Err("bad member ref"@),
        },
        Err(x) => Err(x),
    }
}

/// A write of a static field.
fn do_put_static(st: &mut Sim, fr: &Frame, idx: u16) -> (r: Result<(), BuildError>)
    ensures
        step_outcome(r, old(st)@, final(st)@, op_put_static(old(st)@, fr@, idx)),
{
    let e = match st.pop() {
        Ok(x) => x,
        Err(x) => {
            return Err(x);
        },
    };
    match fr.pc.member_ref(idx) {
        Some((cls, name, desc)) => {
            let target = make_field(fr, None, cls, name, desc, true);
            st.emit(mk_assign(target, e));
            Ok(())
        },
        None => Err(failure("bad member ref")),
    }
}

/// A read of an instance field.
pub open spec fn op_get_field(st: SimV, fr: FrameV, idx: u16) -> Result<SimV, Seq<char>> {
    match popped(st) {
        Ok((obj, st1)) => match member_ref_at(fr.pc, idx) {
            Some(m) => Ok(pushed(st1, instance_field(fr, obj, m))),
            None => Err("bad member ref"@),
        },
        Err(x) => Err(x),
    }
}

/// A read of an instance field.
fn do_get_field(st: &mut Sim, fr: &Frame, idx: u16) -> (r: Result<(), BuildError>)
    ensures
        step_outcome(r, old(st)@, final(st)@, op_get_field(old(st)@, fr@, idx)),
{
    let obj = match st.pop() {
        Ok(x) => x,
        Err(x) => {
            return Err(x);
        },
    };
    match fr.pc.member_ref(idx) {
        Some((cls, name, desc)) => {
            let owner = owner_expr(fr.pc, obj, cls);
            st.push(make_field(fr, owner, cls, name, desc, false));
            Ok(())
        },
        None => Err(failure("bad member ref")),
    }
}

/// A write of an instance field.
pub open spec fn op_put_field(st: SimV, fr: FrameV, idx: u16) -> Result<SimV, Seq<char>> {
    match popped2(st) {
        Ok((e, obj, st1)) => match member_ref_at(fr.pc, idx) {
            Some(m) => Ok(emitted(st1, assignment(instance_field(fr, obj, m), e))),
            None => Err("bad member ref"@),
        },
        Err(x) => Err(x),
    }
}

/// A write of an instance field.
fn do_put_field(st: &mut Sim, fr: &Frame, idx: u16) -> (r: Result<(), BuildError>)
    ensures
        step_outcome(r, old(st)@, final(st)@, op_put_field(old(st)@, fr@, idx)),
{
    let (e, obj) = match st.pop2() {
        Ok(x) => x,
        Err(x) => {
            return Err(x);
        },
    };
    match fr.pc.member_ref(idx) {
        Some((cls, name, desc)) => {
            let owner = owner_expr(fr.pc, obj, cls);
            let target = make_field(fr, owner, cls, name, desc, false);
            st.emit(mk_assign(target, e));
            Ok(())
        },
        None => Err(failure("bad member ref")),
    }
}

/// The start of an object.
pub open spec fn op_new(st: SimV, fr: FrameV, idx: u16) -> Result<SimV, Seq<char>> {
    match class_name_at(fr.pc, idx) {
        Some(cls) => Ok(
            pushed(
                st,
                ExprV::New {
                    cls,
                    ty: TypeRefV::J(JTypeV::Object(cls)),
                    args: seq![],
                    raw: true,
                },
            ),
        ),
        None => Err("new: bad cp"@),
    }
}

/// The start of an object.
fn do_new(st: &mut Sim, fr: &Frame, idx: u16) -> (r: Result<(), BuildError>)
    ensures
        step_outcome(r, old(st)@, final(st)@, op_new(old(st)@, fr@, idx)),
{
    match fr.pc.class_name(idx) {
        Some(n) => {
            let args: Vec<Expr> = Vec::new();
            assert(exprs(args@) =~= seq![]);
            let ty = TypeRef::J(JType::Object(n.to_owned()));
            st.push(Expr::New { cls: n.to_owned(), ty, args, raw: true });
            Ok(())
        },
        None => Err(failure("new: bad cp")),
    }
}

/// A new array of primitives.
pub open spec fn op_new_primitive(st: SimV, code: i32) -> Result<SimV, Seq<char>> {
    match popped(st) {
        Ok((n, st1)) => match element_code(code) {
            Some(t) => Ok(pushed(st1, fresh_array(t, seq![n], 0))),
            None => Err("newarray bad atype "@ + int_text(code as int)),
        },
        Err(x) => Err(x),
    }
}

/// A new array of primitives.
fn do_new_primitive(st: &mut Sim, code: i32) -> (r: Result<(), BuildError>)
    ensures
        step_outcome(r, old(st)@, final(st)@, op_new_primitive(old(st)@, code)),
{
    let n = match st.pop() {
        Ok(x) => x,
        Err(x) => {
            return Err(x);
        },
    };
    match element_of(code) {
        Some(t) => {
            let mut dims: Vec<Expr> = Vec::new();
            dims.push(n);
            assert(exprs(dims@) =~= seq![n@]);
            st.push(make_array(t, dims, 0));
            Ok(())
        },
        None => {
            let mut text: String = "newarray bad atype ".to_owned();
            append_int(&mut text, code as i64);
            Err(BuildError(text))
        },
    }
}

/// A new array of objects or arrays.
pub open spec fn op_new_objects(st: SimV, fr: FrameV, idx: u16) -> Result<SimV, Seq<char>> {
    match popped(st) {
        Ok((n, st1)) => match class_name_at(fr.pc, idx) {
            Some(cls) => {
                let levels = (leading_brackets(cls) % 256) as u8;
                Ok(
                    pushed(
                        st1,
                        fresh_array(peeled(component(cls, levels), levels as nat), seq![n], levels),
                    )
                )
            },
            None => Err("anewarray: bad cp"@),
        },
        Err(x) => Err(x),
    }
}

/// A new array of objects or arrays.
fn do_new_objects(st: &mut Sim, fr: &Frame, idx: u16) -> (r: Result<(), BuildError>)
    ensures
        step_outcome(r, old(st)@, final(st)@, op_new_objects(old(st)@, fr@, idx)),
{
    let n = match st.pop() {
        Ok(x) => x,
        Err(x) => {
            return Err(x);
        },
    };
    match fr.pc.class_name(idx) {
        Some(cls) => {
            let levels = (count_brackets(cls) % 256) as u8;
            let t = peel(component_type(cls, levels), levels as usize);
            let mut dims: Vec<Expr> = Vec::new();
            dims.push(n);
            assert(exprs(dims@) =~= seq![n@]);
            st.push(make_array(t, dims, levels));
            Ok(())
        },
        None => Err(failure("anewarray: bad cp")),
    }
}

/// A new array with `n` dimensions given.
pub open spec fn op_new_multi(st: SimV, fr: FrameV, idx: u16, n: nat) -> Result<SimV, Seq<char>> {
    match popped_args(st, n) {
        Ok((dims, st1)) => match class_name_at(fr.pc, idx) {
            Some(cls) => {
                let levels = leading_brackets(cls);
                let t = match field_desc(cls) {
                    Some(t) => t,
                    None => object_type(),
                };
                let trailing = if levels >= dims.len() {
                    ((levels - dims.len()) % 256) as u8
                } else {
                    0
                };
                Ok(pushed(st1, fresh_array(peeled(t, levels), dims, trailing)))
            },
            None => Err("mana class"@),
        },
        Err(x) => Err(x),
    }
}

/// A new array with `n` dimensions given.
fn do_new_multi(st: &mut Sim, fr: &Frame, idx: u16, n: usize) -> (r: Result<(), BuildError>)
    ensures
        step_outcome(r, old(st)@, final(st)@, op_new_multi(old(st)@, fr@, idx, n as nat)),
{
    let dims = match st.pop_args(n) {
        Ok(x) => x,
        Err(x) => {
            return Err(x);
        },
    };
    assert(exprs(dims@).len() == dims@.len());
    match fr.pc.class_name(idx) {
        Some(cls) => {
            let levels = count_brackets(cls);
            let t = match parse_field_descriptor(cls) {
                Some(t) => t,
                None => object("java/lang/Object"),
            };
            let trailing = if levels >= dims.len() {
                ((levels - dims.len()) % 256) as u8
            } else {
                0
            };
            st.push(make_array(peel(t, levels), dims, trailing));
            Ok(())
        },
        None => Err(failure("mana class")),
    }
}

/// The length of an array.
pub open spec fn op_array_length(st: SimV) -> Result<SimV, Seq<char>> {
    match popped(st) {
        Ok((e, st1)) => Ok(
            pushed(
                st1,
                ExprV::Field {
                    owner: Some(Box::new(e)),
                    cls: seq![],
                    name: "length"@,
                    ty: TypeRefV::J(JTypeV::Int),
                    is_static: false,
                },
            ),
        ),
        Err(x) => Err(x),
    }
}

/// The length of an array.
fn do_array_length(st: &mut Sim) -> (r: Result<(), BuildError>)
    ensures
        step_outcome(r, old(st)@, final(st)@, op_array_length(old(st)@)),
{
    let e = match st.pop() {
        Ok(x) => x,
        Err(x) => {
            return Err(x);
        },
    };
    let owner = Some(Box::new(e));
    assert(opt_box(owner) == Some(Box::new(e@)));
    let cls: String = String::new();
    assert(cls@ =~= seq![]);
    st.push(
        Expr::Field {
            owner,
            cls,
            name: "length".to_owned(),
            ty: TypeRef::J(JType::Int),
            is_static: false,
        },
    );
    Ok(())
}

/// A checked cast.
pub open spec fn op_check_cast(st: SimV, fr: FrameV, idx: u16) -> Result<SimV, Seq<char>> {
    match popped(st) {
        Ok((e, st1)) => match class_name_at(fr.pc, idx) {
            Some(n) => Ok(
                pushed(st1, ExprV::Cast { ty: clone_cast(e, class_type(n)), e: Box::new(e) }),
            ),
            None => Err("bad class cp"@),
        },
        Err(x) => Err(x),
    }
}

/// A checked cast.
fn do_check_cast(st: &mut Sim, fr: &Frame, idx: u16) -> (r: Result<(), BuildError>)
    ensures
        step_outcome(r, old(st)@, final(st)@, op_check_cast(old(st)@, fr@, idx)),
{
    let e = match st.pop() {
        Ok(x) => x,
        Err(x) => {
            return Err(x);
        },
    };
    match fr.pc.class_name(idx) {
        Some(n) => {
            let ty = cast_type(&e, class_name_to_type(n));
            st.push(Expr::Cast { ty, e: Box::new(e) });
            Ok(())
        },
        None => Err(failure("bad class cp")),
    }
}

/// A test of a value's class.
pub open spec fn op_instance_of(st: SimV, fr: FrameV, idx: u16) -> Result<SimV, Seq<char>> {
    match popped(st) {
        Ok((e, st1)) => match class_name_at(fr.pc, idx) {
            Some(n) => Ok(
                pushed(st1, ExprV::InstanceOf { e: Box::new(e), ty: TypeRefV::J(class_type(n)) }),
            ),
            None => Err("bad class cp"@),
        },
        Err(x) => Err(x),
    }
}

/// A test of a value's class.
fn do_instance_of(st: &mut Sim, fr: &Frame, idx: u16) -> (r: Result<(), BuildError>)
    ensures
        step_outcome(r, old(st)@, final(st)@, op_instance_of(old(st)@, fr@, idx)),
{
    let e = match st.pop() {
        Ok(x) => x,
        Err(x) => {
            return Err(x);
        },
    };
    match fr.pc.class_name(idx) {
        Some(n) => {
            st.push(Expr::InstanceOf { e: Box::new(e), ty: TypeRef::J(class_name_to_type(n)) });
            Ok(())
        },
        None => Err(failure("bad class cp")),
    }
}

/// The start of a monitor.
pub open spec fn op_monitor_enter(st: SimV) -> Result<SimV, Seq<char>> {
    match popped(st) {
        Ok((e, st1)) => Ok(emitted(st1, StmtV::MonitorEnter(e))),
        Err(x) => Err(x),
    }
}

/// The start of a monitor.
fn do_monitor_enter(st: &mut Sim) -> (r: Result<(), BuildError>)
    ensures
        step_outcome(r, old(st)@, final(st)@, op_monitor_enter(old(st)@)),
{
    let e = match st.pop() {
        Ok(x) => x,
        Err(x) => {
            return Err(x);
        },
    };
    st.emit(Stmt::MonitorEnter(e));
    Ok(())
}

/// The end of a monitor.
pub open spec fn op_monitor_exit(st: SimV) -> Result<SimV, Seq<char>> {
    match popped(st) {
        Ok((e, st1)) => Ok(emitted(st1, StmtV::MonitorExit(e))),
        Err(x) => Err(x),
    }
}

/// The end of a monitor.
fn do_monitor_exit(st: &mut Sim) -> (r: Result<(), BuildError>)
    ensures
        step_outcome(r, old(st)@, final(st)@, op_monitor_exit(old(st)@)),
{
    let e = match st.pop() {
        Ok(x) => x,
        Err(x) => {
            return Err(x);
        },
    };
    st.emit(Stmt::MonitorExit(e));
    Ok(())
}

/// A store to an array element. Values of a fresh array are folded into the array that
/// is still on the stack.
pub open spec fn op_array_store(st: SimV) -> Result<SimV, Seq<char>> {
    match popped3(st) {
        Ok((val, idx, arr, st1)) => {
            let store = assignment(
                ExprV::ArrayIndex { array: Box::new(arr), index: Box::new(idx) },
                val,
            );
            match (as_int(idx), twin_index(st1.stack, arr)) {
                (Some(i), Some(k)) => {
                    let (filled, done) = with_value(st1.stack[k], i, val);
                    let st2 = SimV { stack: st1.stack.update(k, filled), ..st1 };
                    Ok(
                        if done {
                            st2
                        } else {
                            emitted(st2, store)
                        },
                    )
                },
                _ => Ok(emitted(st1, store)),
            }
        },
        Err(x) => Err(x),
    }
}

/// A store to an array element. Values of a fresh array are folded into the array that
/// is still on the stack.
fn do_array_store(st: &mut Sim) -> (r: Result<(), BuildError>)
    ensures
        step_outcome(r, old(st)@, final(st)@, op_array_store(old(st)@)),
{
    let (val, idx, arr) = match st.pop3() {
        Ok(x) => x,
        Err(x) => {
            return Err(x);
        },
    };
    let ghost st1 = st@;
    if let Some(i) = int_of(&idx) {
        if let Some(k) = find_twin(&st.stack, &arr) {
            assert(exprs(st.stack@)[k as int] == st.stack@[k as int]@);
            let done = fold_value(&mut st.stack[k], i, &val);
            assert(exprs(st.stack@) =~= st1.stack.update(
                k as int,
                with_value(st1.stack[k as int], i, val@).0,
            ));
            if done {
                return Ok(());
            }
        }
    }
    proof {
        reveal_with_fuel(Expr::view, 2);
    }
    let target = Expr::ArrayIndex { array: Box::new(arr), index: Box::new(idx) };
    st.emit(mk_assign(target, val));
    Ok(())
}

// ---------------------------------------------------------------------
// Increments.

/// The length of the increment of a variable at `at` that a `dup` comes before: a load,
/// one, an addition and a store of the same slot, or one `iinc`.
pub open spec fn increment_ahead(ins: Seq<InstructionV>, at: int) -> Option<nat> {
    if at + 3 < ins.len() && int_load_slot(ins[at]) is Some && ins[at + 1].op is Iconst1 && ins[at
        + 2].op is Iadd && int_store_slot(ins[at + 3]) == int_load_slot(ins[at]) {
        Some(4)
    } else if at < ins.len() && ins[at].op is Iinc && ins[at].b == 1 {
        Some(1)
    } else {
        None
    }
}

/// The length of the increment of a variable at `at`.
fn postinc_ahead(ins: &Vec<Instruction>, at: usize) -> (r: Option<usize>)
    ensures
        match r {
            Some(n) => increment_ahead(instructions(ins@), at as int) == Some(n as nat) && (n == 1
                || n == 4) && at + n <= ins.len(),
            None => increment_ahead(instructions(ins@), at as int) is None,
        },
{
    let n = ins.len();
    if at >= n {
        return None;
    }
    assert(instructions(ins@)[at as int] == ins@[at as int]@);
    if n >= 4 && at <= n - 4 {
        assert(instructions(ins@)[at + 1] == ins@[at + 1]@);
        assert(instructions(ins@)[at + 2] == ins@[at + 2]@);
        assert(instructions(ins@)[at + 3] == ins@[at + 3]@);
        if let Some(slot) = ins[at].int_load_slot() {
            if ins[at + 1].op == Opcode::Iconst1 && ins[at + 2].op == Opcode::Iadd {
                if let Some(to) = ins[at + 3].int_store_slot() {
                    if to == slot {
                        return Some(4);
                    }
                }
            }
        }
    }
    if ins[at].op == Opcode::Iinc && ins[at].b == 1 {
        return Some(1);
    }
    None
}

/// An increment of variable `v` as a statement.
pub open spec fn increment(vt: VarTableV, v: u32, delta: i64) -> StmtV {
    StmtV::ExprStmt(ExprV::PostIncDec { e: Box::new(local(vt, v)), delta, wide: false })
}

/// The increment of length `n` at `at`, done as a statement.
pub open spec fn incremented(
    st: SimV,
    fr: FrameV,
    ins: Seq<InstructionV>,
    at: int,
    n: nat,
) -> Result<
    SimV,
    Seq<char>,
> {
    let (slot, pc) = if n == 4 {
        (int_store_slot(ins[at + 3]).unwrap(), ins[at + 3].pc)
    } else {
        (low16(ins[at].a), ins[at].pc)
    };
    match var_at(fr.vt, slot, pc) {
        Some(v) => Ok(emitted(st, increment(fr.vt, v, 1))),
        None => Err(no_var(slot, pc)),
    }
}

/// Does the increment of length `n` at `at` as a statement.
fn exec_postinc(
    st: &mut Sim,
    fr: &Frame,
    ins: &Vec<Instruction>,
    at: usize,
    n: usize,
) -> (r: Result<
    (),
    BuildError,
>)
    requires
        increment_ahead(instructions(ins@), at as int) == Some(n as nat),
        at < ins.len(),
    ensures
        step_outcome(
            r,
            old(st)@,
            final(st)@,
            incremented(old(st)@, fr@, instructions(ins@), at as int, n as nat),
        ),
{
    assert(instructions(ins@)[at as int] == ins@[at as int]@);
    let (slot, pc) = if n == 4 {
        assert(instructions(ins@)[at + 3] == ins@[at + 3]@);
        match ins[at + 3].int_store_slot() {
            Some(slot) => (slot, ins[at + 3].pc),
            None => (0, 0),
        }
    } else {
        (to_u16(ins[at].a), ins[at].pc)
    };
    match fr.vt.at(slot, pc) {
        Some(v) => {
            proof {
                reveal_with_fuel(Expr::view, 2);
            }
            let e = Box::new(make_local(fr.vt, v));
            st.emit(Stmt::ExprStmt(Expr::PostIncDec { e, delta: 1, wide: false }));
            Ok(())
        },
        None => Err(no_var_error(slot, pc)),
    }
}

/// The number that an instruction adds.
pub open spec fn added_number(i: InstructionV) -> Option<i64> {
    match i.op {
        Opcode::Iconst1 => Some(1i64),
        Opcode::IconstM1 => Some(MINUS_ONE_LONG),
        Opcode::Bipush => Some(i.a as i64),
        Opcode::Sipush => Some(i.a as i64),
        _ => None,
    }
}

/// The number that `iconst_m1` adds.
pub const MINUS_ONE_LONG: i64 = -1;

/// The number that an instruction adds.
fn number_added(i: &Instruction) -> (r: Option<i64>)
    ensures
        r == added_number(i@),
{
    match i.op {
        Opcode::Iconst1 => Some(1),
        Opcode::IconstM1 => Some(MINUS_ONE_LONG),
        Opcode::Bipush => Some(i.a as i64),
        Opcode::Sipush => Some(i.a as i64),
        _ => None,
    }
}

/// An instruction stores to what `e` reads: the slot of the local, or the same field.
pub open spec fn stores_to(fr: FrameV, i: InstructionV, e: ExprV) -> bool {
    match e {
        ExprV::Local { var, .. } => int_store_slot(i) == Some(var_slot(fr.vt, var)),
        ExprV::Field { cls, name, is_static, .. } => (i.op is Putstatic || i.op is Putfield) && (
        member_ref_at(fr.pc, low16(i.a)) matches Some((c, n, _)) && (c == cls && n == name && (i.op
            is Putstatic) == is_static)),
        _ => false,
    }
}

/// Whether an instruction stores to what `e` reads.
fn stores_back(fr: &Frame, i: &Instruction, e: &Expr) -> (r: bool)
    ensures
        r == stores_to(fr@, i@, e@),
{
    match e {
        Expr::Local { var, .. } => match i.int_store_slot() {
            Some(slot) => slot == fr.vt.var_slot(*var),
            None => false,
        },
        Expr::Field { cls, name, is_static, .. } => {
            let to_static = i.op == Opcode::Putstatic;
            if !to_static && i.op != Opcode::Putfield {
                return false;
            }
            match fr.pc.member_ref(to_u16(i.a)) {
                Some((c, n, _)) => str_eq(c, cls.as_str()) && str_eq(n, name.as_str()) && to_static
                    == *is_static,
                None => false,
            }
        },
        _ => false,
    }
}

/// The number that is added to the top of the stack and stored back by the three
/// instructions at `at`.
pub open spec fn addition_ahead(
    fr: FrameV,
    ins: Seq<InstructionV>,
    at: int,
    stack: Seq<ExprV>,
) -> Option<
    i64,
> {
    if at + 2 < ins.len() && stack.len() > 0 && ins[at + 1].op is Iadd && stores_to(
        fr,
        ins[at + 2],
        stack.last(),
    ) {
        added_number(ins[at])
    } else {
        None
    }
}

/// The number that is added to the top of the stack and stored back.
fn dup_add_store_ahead(fr: &Frame, ins: &Vec<Instruction>, at: usize, st: &Sim) -> (r: Option<i64>)
    ensures
        r == addition_ahead(fr@, instructions(ins@), at as int, st@.stack),
        r is Some ==> at + 2 < ins.len(),
{
    let n = ins.len();
    if n < 3 || at > n - 3 {
        return None;
    }
    assert(instructions(ins@)[at as int] == ins@[at as int]@);
    assert(instructions(ins@)[at + 1] == ins@[at + 1]@);
    assert(instructions(ins@)[at + 2] == ins@[at + 2]@);
    match st.top() {
        Some(e) => {
            if ins[at + 1].op == Opcode::Iadd && stores_back(fr, &ins[at + 2], e) {
                number_added(&ins[at])
            } else {
                None
            }
        },
        None => None,
    }
}

/// `dup` at `at - 1`: an increment that it comes before is folded, else the top of the
/// stack is copied and its depth marked. Also how many more instructions are done.
pub open spec fn op_dup(st: SimV, fr: FrameV, ins: Seq<InstructionV>, at: int) -> Result<
    (SimV, nat),
    Seq<char>,
> {
    match increment_ahead(ins, at) {
        Some(n) => match incremented(st, fr, ins, at, n) {
            Ok(st1) => Ok((st1, n)),
            Err(x) => Err(x),
        },
        None => match addition_ahead(fr, ins, at, st.stack) {
            Some(delta) => {
                let n = st.stack.len();
                Ok(
                    (
                        SimV {
                            stack: st.stack.drop_last().push(
                                ExprV::PostIncDec {
                                    e: Box::new(st.stack.last()),
                                    delta,
                                    wide: false,
                                },
                            ),
                            marks: marks_below(st.marks, n - 1),
                            ..st
                        },
                        3,
                    ),
                )
            },
            None => if st.stack.len() == 0 {
                Err("dup on empty"@)
            } else {
                Ok(
                    (
                        SimV {
                            stack: st.stack.push(st.stack.last()),
                            marks: st.marks.push((st.stack.len() - 1) as usize),
                            ..st
                        },
                        0,
                    ),
                )
            },
        },
    }
}

/// What a step that may do more instructions does: `goal` says what comes of it.
pub open spec fn long_outcome(
    r: Result<usize, BuildError>,
    before: SimV,
    after: SimV,
    goal: Result<(SimV, nat), Seq<char>>,
) -> bool {
    match r {
        Ok(n) => goal == Ok::<(SimV, nat), Seq<char>>((after, n as nat)),
        Err(x) => goal == Err::<(SimV, nat), Seq<char>>(x.0@) && same_declared(after, before),
    }
}

/// `dup`.
fn do_dup(
    st: &mut Sim,
    fr: &Frame,
    ins: &Vec<Instruction>,
    at: usize,
) -> (r: Result<usize, BuildError>)
    requires
        at <= ins.len(),
    ensures
        long_outcome(r, old(st)@, final(st)@, op_dup(old(st)@, fr@, instructions(ins@), at as int)),
        r matches Ok(n) ==> at + n <= ins.len(),
{
    if let Some(n) = postinc_ahead(ins, at) {
        return match exec_postinc(st, fr, ins, at, n) {
            Ok(_) => Ok(n),
            Err(x) => Err(x),
        };
    }
    if let Some(delta) = dup_add_store_ahead(fr, ins, at, st) {
        return match st.pop() {
            Ok(top) => {
                st.push(Expr::PostIncDec { e: Box::new(top), delta, wide: false });
                Ok(3)
            },
            Err(x) => Err(x),
        };
    }
    let ghost start = st@;
    assert(exprs(st.stack@).len() == st.stack@.len());
    let top = match st.top() {
        Some(e) => clone_expr(e),
        None => {
            return Err(failure("dup on empty"));
        },
    };
    st.marks.push(st.stack.len() - 1);
    st.push(top);
    assert(st@.marks =~= start.marks.push((start.stack.len() - 1) as usize));
    Ok(0)
}

/// The topmost read of variable `v` on the stack.
pub open spec fn snapshot(stack: Seq<ExprV>, v: u32) -> Option<int>
    decreases stack.len(),
{
    if stack.len() == 0 {
        None
    } else if stack.last() matches ExprV::Local { var, .. } && var == v {
        Some(stack.len() - 1)
    } else {
        snapshot(stack.drop_last(), v)
    }
}

/// The topmost read of variable `v` on the stack.
#[verifier::loop_isolation(false)]
fn find_snapshot(stack: &Vec<Expr>, v: u32) -> (r: Option<usize>)
    ensures
        match r {
            Some(k) => k < stack.len() && snapshot(exprs(stack@), v) == Some(k as int),
            None => snapshot(exprs(stack@), v) is None,
        },
{
    let ghost all = exprs(stack@);
    let mut i: usize = stack.len();
    assert(all.take(i as int) =~= all);
    while i > 0
        invariant
            i <= stack.len(),
            snapshot(all.take(i as int), v) == snapshot(all, v),
        decreases i,
    {
        i -= 1;
        assert(all.take(i + 1).drop_last() =~= all.take(i as int));
        assert(all.take(i + 1).last() == stack@[i as int]@);
        if crate::expr::is_local(&stack[i], v) {
            return Some(i);
        }
    }
    None
}

/// `iinc` at `at - 1`. A read of the variable that is still on the stack becomes a
/// post-increment, a load right after it makes a pre-increment, and otherwise it is a
/// statement. Also how many more instructions are done.
pub open spec fn op_inc(
    st: SimV,
    fr: FrameV,
    i: InstructionV,
    ins: Seq<InstructionV>,
    at: int,
) -> Result<(SimV, nat), Seq<char>> {
    match var_at(fr.vt, low16(i.a), i.pc) {
        None => Err(no_var(low16(i.a), i.pc)),
        Some(v) => {
            let delta = i.b as i64;
            let e = Box::new(local(fr.vt, v));
            let one = i.b == 1 || i.b == -1;
            match snapshot(st.stack, v) {
                Some(k) => Ok(
                    (
                        SimV {
                            stack: st.stack.update(k, ExprV::PostIncDec { e, delta, wide: false }),
                            ..st
                        },
                        0,
                    ),
                ),
                None => if one && at < ins.len() && int_load_slot(ins[at]) == Some(
                    var_slot(fr.vt, v),
                ) {
                    Ok((pushed(st, ExprV::PreIncDec { e, delta, wide: false }), 1))
                } else if one {
                    Ok(
                        (
                            emitted(
                                st,
                                StmtV::ExprStmt(ExprV::PreIncDec { e, delta, wide: false }),
                            ),
                            0,
                        ),
                    )
                } else {
                    Ok(
                        (
                            emitted(
                                st,
                                StmtV::ExprStmt(
                                    ExprV::Assign {
                                        target: e,
                                        op: AssignOp::Add,
                                        value: Box::new(int_value(i.b)),
                                    },
                                ),
                            ),
                            0,
                        ),
                    )
                },
            }
        },
    }
}

/// Whether the instruction at `at` loads `slot`.
fn loads_next(ins: &Vec<Instruction>, at: usize, slot: u16) -> (r: bool)
    ensures
        r == (at < ins.len() && int_load_slot(instructions(ins@)[at as int]) == Some(slot)),
{
    if at < ins.len() {
        assert(instructions(ins@)[at as int] == ins@[at as int]@);
        match ins[at].int_load_slot() {
            Some(s) => s == slot,
            None => false,
        }
    } else {
        false
    }
}

/// `iinc`.
#[verifier::spinoff_prover]
fn do_inc(
    st: &mut Sim,
    fr: &Frame,
    i: &Instruction,
    ins: &Vec<Instruction>,
    at: usize,
) -> (r: Result<
    usize,
    BuildError,
>)
    requires
        at <= ins.len(),
    ensures
        long_outcome(
            r,
            old(st)@,
            final(st)@,
            op_inc(old(st)@, fr@, i@, instructions(ins@), at as int),
        ),
        r matches Ok(n) ==> at + n <= ins.len(),
{
    proof {
        reveal_with_fuel(Expr::view, 2);
    }
    let slot = to_u16(i.a);
    let v = match fr.vt.at(slot, i.pc) {
        Some(v) => v,
        None => {
            return Err(no_var_error(slot, i.pc));
        },
    };
    let delta = i.b as i64;
    let e = Box::new(make_local(fr.vt, v));
    let one = i.b == 1 || i.b == -1;
    let ghost start = st@;
    match find_snapshot(&st.stack, v) {
        Some(k) => {
            st.stack[k] = Expr::PostIncDec { e, delta, wide: false };
            assert(exprs(st.stack@) =~= start.stack.update(
                k as int,
                ExprV::PostIncDec { e: Box::new(local(fr@.vt, v)), delta, wide: false },
            ));
            Ok(0)
        },
        None => {
            if one && loads_next(ins, at, fr.vt.var_slot(v)) {
                st.push(Expr::PreIncDec { e, delta, wide: false });
                Ok(1)
            } else if one {
                st.emit(Stmt::ExprStmt(Expr::PreIncDec { e, delta, wide: false }));
                Ok(0)
            } else {
                let value = Box::new(int_const(i.b));
                st.emit(Stmt::ExprStmt(Expr::Assign { target: e, op: AssignOp::Add, value }));
                Ok(0)
            }
        },
    }
}

// ---------------------------------------------------------------------
// One instruction.

/// The pc after an instruction.
pub open spec fn pc_after(i: InstructionV) -> u16 {
    (i.pc + i.size) as u16
}

/// An instruction that can be followed: it ends within the code, and it allocates no
/// negative number of dimensions.
pub open spec fn is_sound(i: InstructionV) -> bool {
    i.pc + i.size <= u16::MAX && (i.op is Multianewarray ==> i.b >= 0)
}

/// Instructions that only push a constant.
pub open spec fn pushed_const(o: Operation) -> Option<ConstValV> {
    match o {
        Operation::PushNull => Some(ConstValV::Null),
        Operation::PushInt(i) => Some(ConstValV::Int(i)),
        Operation::PushLong(i) => Some(ConstValV::Long(i)),
        Operation::PushFloat(b) => Some(ConstValV::Float(b)),
        Operation::PushDouble(b) => Some(ConstValV::Double(b)),
        _ => None,
    }
}

/// What an instruction does that needs no other instruction.
pub open spec fn plain_step(st: SimV, fr: FrameV, i: InstructionV) -> Result<SimV, Seq<char>> {
    match operation_of(i) {
        Operation::Nop => Ok(st),
        Operation::Ldc(idx) => op_ldc(st, fr, idx),
        Operation::Ldc2(idx) => op_ldc2(st, fr, idx),
        Operation::Load(slot) => op_load(st, fr, slot, i.pc),
        Operation::ArrayLoad => op_array_load(st),
        Operation::ArrayStore => op_array_store(st),
        Operation::Pop => op_pop(st),
        Operation::Pop2 => op_pop2(st),
        Operation::DupX1 => op_dup_x1(st),
        Operation::DupX2 => op_dup_x2(st),
        Operation::Dup2 => op_dup2(st),
        Operation::Dup2X1 => op_dup2_x1(st),
        Operation::Dup2X2 => op_dup2_x2(st),
        Operation::Swap => op_swap(st),
        Operation::Arith(op, p) => op_arith(st, op, p),
        Operation::Neg => op_neg(st),
        Operation::Convert(p) => op_convert(st, p),
        Operation::Compare(p) => op_compare(st, p),
        Operation::IfZero(op) => op_if_zero(st, op),
        Operation::IfPair(op) => op_if_pair(st, op),
        Operation::IfNull(op) => op_if_null(st, op),
        Operation::Goto => Ok(ended(st, TermV::Goto)),
        Operation::Jsr => Ok(ended(st, TermV::Jsr)),
        Operation::Ret => Ok(ended(st, TermV::Ret)),
        Operation::Switch => op_switch(st, i.switch_data),
        Operation::ReturnValue => op_return_value(st),
        Operation::ReturnVoid => Ok(ended(st, TermV::Return(None))),
        Operation::Throw => op_throw(st),
        Operation::GetStatic => op_get_static(st, fr, low16(i.a)),
        Operation::PutStatic => op_put_static(st, fr, low16(i.a)),
        Operation::GetField => op_get_field(st, fr, low16(i.a)),
        Operation::PutField => op_put_field(st, fr, low16(i.a)),
        Operation::Invoke(kind) => invoked(st, fr.pc, fr.pool, kind, low16(i.a)),
        Operation::InvokeDynamic => dynamically_invoked(st, fr.pc, low16(i.a)),
        Operation::New => op_new(st, fr, low16(i.a)),
        Operation::NewPrimitiveArray => op_new_primitive(st, i.a),
        Operation::NewObjectArray => op_new_objects(st, fr, low16(i.a)),
        Operation::NewMultiArray => op_new_multi(st, fr, low16(i.a), i.b as nat),
        Operation::ArrayLength => op_array_length(st),
        Operation::CheckCast => op_check_cast(st, fr, low16(i.a)),
        Operation::InstanceOf => op_instance_of(st, fr, low16(i.a)),
        Operation::MonitorEnter => op_monitor_enter(st),
        Operation::MonitorExit => op_monitor_exit(st),
        Operation::Invalid => Err("invalid opcode at pc "@ + decimal(i.pc as nat)),
        Operation::Unhandled => Err(
            "unhandled opcode "@ + i.name + " at pc "@ + decimal(i.pc as nat),
        ),
        other => match pushed_const(other) {
            Some(c) => Ok(pushed(st, ExprV::Const(c))),
            None => Ok(st),
        },
    }
}

/// What the instruction at `i` does, and how many more instructions are done with it.
pub open spec fn step(st: SimV, fr: FrameV, ins: Seq<InstructionV>, i: int) -> Result<
    (SimV, nat),
    Seq<char>,
> {
    match operation_of(ins[i]) {
        Operation::Dup => op_dup(st, fr, ins, i + 1),
        Operation::Inc => op_inc(st, fr, ins[i], ins, i + 1),
        Operation::Store(slot, reference) => match op_store(
            st,
            fr,
            slot,
            ins[i].pc,
            pc_after(ins[i]),
            reference && enters_monitor(ins, i + 1),
        ) {
            Ok(st1) => Ok((st1, 0)),
            Err(x) => Err(x),
        },
        _ => match plain_step(st, fr, ins[i]) {
            Ok(st1) => Ok((st1, 0)),
            Err(x) => Err(x),
        },
    }
}

/// The error for an instruction that has no meaning.
fn bad_opcode(i: &Instruction, invalid: bool) -> (r: BuildError)
    ensures
        r.0@ == if invalid {
            "invalid opcode at pc "@ + decimal(i.pc as nat)
        } else {
            "unhandled opcode "@ + i.name@ + " at pc "@ + decimal(i.pc as nat)
        },
{
    if invalid {
        let mut s: String = "invalid opcode at pc ".to_owned();
        append_decimal(&mut s, i.pc as u128);
        BuildError(s)
    } else {
        let mut s: String = "unhandled opcode ".to_owned();
        s.append(i.name.as_str());
        s.append(" at pc ");
        append_decimal(&mut s, i.pc as u128);
        BuildError(s)
    }
}

/// The constant that an instruction pushes.
fn const_pushed(o: Operation) -> (r: Option<ConstVal>)
    ensures
        crate::values::opt_const(r) == pushed_const(o),
{
    match o {
        Operation::PushNull => Some(ConstVal::Null),
        Operation::PushInt(i) => Some(ConstVal::Int(i)),
        Operation::PushLong(i) => Some(ConstVal::Long(i)),
        Operation::PushFloat(b) => Some(ConstVal::Float(b)),
        Operation::PushDouble(b) => Some(ConstVal::Double(b)),
        _ => None,
    }
}

/// Does an instruction that needs no other instruction.
#[verifier::spinoff_prover]
#[verifier::rlimit(60)]
fn do_plain(st: &mut Sim, fr: &Frame, i: &Instruction) -> (r: Result<(), BuildError>)
    requires
        is_sound(i@),
    ensures
        step_outcome(r, old(st)@, final(st)@, plain_step(old(st)@, fr@, i@)),
{
    let idx = to_u16(i.a);
    match i.operation() {
        Operation::Nop => Ok(()),
        Operation::Ldc(idx) => do_ldc(st, fr, idx),
        Operation::Ldc2(idx) => do_ldc2(st, fr, idx),
        Operation::Load(slot) => do_load(st, fr, slot, i.pc),
        Operation::ArrayLoad => do_array_load(st),
        Operation::ArrayStore => do_array_store(st),
        Operation::Pop => do_pop(st),
        Operation::Pop2 => do_pop2(st),
        Operation::DupX1 => do_dup_x1(st),
        Operation::DupX2 => do_dup_x2(st),
        Operation::Dup2 => do_dup2(st),
        Operation::Dup2X1 => do_dup2_x1(st),
        Operation::Dup2X2 => do_dup2_x2(st),
        Operation::Swap => do_swap(st),
        Operation::Arith(op, p) => do_arith(st, op, p),
        Operation::Neg => do_neg(st),
        Operation::Convert(p) => do_convert(st, p),
        Operation::Compare(p) => do_compare(st, p),
        Operation::IfZero(op) => do_if_zero(st, op),
        Operation::IfPair(op) => do_if_pair(st, op),
        Operation::IfNull(op) => do_if_null(st, op),
        Operation::Goto => {
            st.end(Term::Goto);
            Ok(())
        },
        Operation::Jsr => {
            st.end(Term::Jsr);
            Ok(())
        },
        Operation::Ret => {
            st.end(Term::Ret);
            Ok(())
        },
        Operation::Switch => do_switch(st, &i.switch_data),
        Operation::ReturnValue => do_return_value(st),
        Operation::ReturnVoid => {
            st.end(Term::Return(None));
            Ok(())
        },
        Operation::Throw => do_throw(st),
        Operation::GetStatic => do_get_static(st, fr, idx),
        Operation::PutStatic => do_put_static(st, fr, idx),
        Operation::GetField => do_get_field(st, fr, idx),
        Operation::PutField => do_put_field(st, fr, idx),
        Operation::Invoke(kind) => invoke(st, fr.pc, fr.pool, kind, idx),
        Operation::InvokeDynamic => invoke_dynamic(st, fr.pc, idx),
        Operation::New => do_new(st, fr, idx),
        Operation::NewPrimitiveArray => do_new_primitive(st, i.a),
        Operation::NewObjectArray => do_new_objects(st, fr, idx),
        Operation::NewMultiArray => do_new_multi(st, fr, idx, i.b as usize),
        Operation::ArrayLength => do_array_length(st),
        Operation::CheckCast => do_check_cast(st, fr, idx),
        Operation::InstanceOf => do_instance_of(st, fr, idx),
        Operation::MonitorEnter => do_monitor_enter(st),
        Operation::MonitorExit => do_monitor_exit(st),
        Operation::Invalid => Err(bad_opcode(i, true)),
        Operation::Unhandled => Err(bad_opcode(i, false)),
        other => {
            if let Some(c) = const_pushed(other) {
                st.push(Expr::Const(c));
            }
            Ok(())
        },
    }
}

/// Does the instruction at `i`; how many more instructions are done with it.
#[verifier::spinoff_prover]
fn do_step(
    st: &mut Sim,
    fr: &Frame,
    ins: &Vec<Instruction>,
    i: usize,
) -> (r: Result<usize, BuildError>)
    requires
        i < ins.len(),
        is_sound(ins@[i as int]@),
    ensures
        long_outcome(r, old(st)@, final(st)@, step(old(st)@, fr@, instructions(ins@), i as int)),
        r matches Ok(n) ==> i + 1 + n <= ins.len(),
{
    assert(instructions(ins@)[i as int] == ins@[i as int]@);
    let x = &ins[i];
    let done = match x.operation() {
        Operation::Dup => {
            return do_dup(st, fr, ins, i + 1);
        },
        Operation::Inc => {
            return do_inc(st, fr, x, ins, i + 1);
        },
        Operation::Store(slot, reference) => {
            let monitor = if i + 1 < ins.len() {
                assert(instructions(ins@)[i + 1] == ins@[i + 1]@);
                ins[i + 1].op == Opcode::Monitorenter
            } else {
                false
            };
            do_store(st, fr, slot, x.pc, x.pc + x.size, reference && monitor)
        },
        _ => do_plain(st, fr, x),
    };
    match done {
        Ok(_) => Ok(0),
        Err(x) => Err(x),
    }
}

// ---------------------------------------------------------------------
// A whole block.

/// The instructions from `i` on, followed in order. An error comes with the variables
/// declared until then.
pub open spec fn followed(st: SimV, fr: FrameV, ins: Seq<InstructionV>, i: int) -> Result<
    SimV,
    (Seq<char>, Seq<u32>),
>
    decreases ins.len() - i,
{
    if i < 0 || i >= ins.len() {
        Ok(st)
    } else {
        match step(st, fr, ins, i) {
            Ok((st1, n)) => followed(st1, fr, ins, i + 1 + n),
            Err(x) => Err((x, st.declared)),
        }
    }
}

/// What a block becomes.
#[derive(Debug)]
pub struct BlockResult {
    pub stmts: Vec<Stmt>,
    /// Operand stack contents at block exit (usually empty).
    pub out_stack: Vec<Expr>,
    pub term: Term,
}

/// Model of [`BlockResult`].
#[verifier::ext_equal]
pub ghost struct BlockResultV {
    pub stmts: Seq<StmtV>,
    pub out_stack: Seq<ExprV>,
    pub term: TermV,
}

impl BlockResult {
    pub open spec fn view(&self) -> BlockResultV {
        BlockResultV {
            stmts: stmts(self.stmts@),
            out_stack: exprs(self.out_stack@),
            term: self.term@,
        }
    }
}

/// A statement with the initializers that wait for its fresh arrays, and those that
/// wait after it.
pub open spec fn stmt_materialized(s: StmtV, arrays: Seq<PendingArrayV>) -> (
    StmtV,
    Seq<PendingArrayV>,
) {
    match s {
        StmtV::ExprStmt(e) => {
            let (e1, arrays1) = materialized(e, arrays);
            (StmtV::ExprStmt(e1), arrays1)
        },
        StmtV::LocalDef { var, init, is_final, force_type } => {
            let (init1, arrays1) = materialized_oexpr(init, arrays);
            (StmtV::LocalDef { var, init: init1, is_final, force_type }, arrays1)
        },
        StmtV::Return(e) => {
            let (e1, arrays1) = materialized_oexpr(e, arrays);
            (StmtV::Return(e1), arrays1)
        },
        StmtV::Throw(e) => {
            let (e1, arrays1) = materialized(e, arrays);
            (StmtV::Throw(e1), arrays1)
        },
        StmtV::MonitorEnter(e) => {
            let (e1, arrays1) = materialized(e, arrays);
            (StmtV::MonitorEnter(e1), arrays1)
        },
        StmtV::MonitorExit(e) => {
            let (e1, arrays1) = materialized(e, arrays);
            (StmtV::MonitorExit(e1), arrays1)
        },
        _ => (s, arrays),
    }
}

/// [`stmt_materialized`] over a list, in order.
pub open spec fn stmts_materialized(v: Seq<StmtV>, arrays: Seq<PendingArrayV>) -> (
    Seq<StmtV>,
    Seq<PendingArrayV>,
)
    decreases v.len(),
{
    if v.len() == 0 {
        (seq![], arrays)
    } else {
        let (front, arrays1) = stmts_materialized(v.drop_last(), arrays);
        let (last, arrays2) = stmt_materialized(v.last(), arrays1);
        (front.push(last), arrays2)
    }
}

/// The end of a block with the initializers that wait for its fresh arrays, and those
/// that wait after it.
pub open spec fn term_materialized(t: TermV, arrays: Seq<PendingArrayV>) -> (
    TermV,
    Seq<PendingArrayV>,
) {
    match t {
        TermV::Return(e) => {
            let (e1, arrays1) = materialized_oexpr(e, arrays);
            (TermV::Return(e1), arrays1)
        },
        TermV::Throw(e) => {
            let (e1, arrays1) = materialized(e, arrays);
            (TermV::Throw(e1), arrays1)
        },
        TermV::Cond { cond } => {
            let (e1, arrays1) = materialized(cond, arrays);
            (TermV::Cond { cond: e1 }, arrays1)
        },
        TermV::Switch { selector, targets } => {
            let (e1, arrays1) = materialized(selector, arrays);
            (TermV::Switch { selector: e1, targets }, arrays1)
        },
        _ => (t, arrays),
    }
}

/// What a block becomes once its instructions are followed, and the initializers that
/// still wait.
pub open spec fn finished(
    st: SimV,
    arrays: Seq<PendingArrayV>,
) -> (BlockResultV, Seq<PendingArrayV>) {
    let (stmts, arrays1) = stmts_materialized(st.stmts, arrays);
    let (term, arrays2) = term_materialized(st.term, arrays1);
    let (out_stack, arrays3) = materialized_exprs(st.stack, arrays2);
    (BlockResultV { stmts, out_stack, term }, arrays3)
}

/// [`law_keys_stay_apart`] where there is a value.
proof fn lemma_oexpr_apart(o: Option<ExprV>, arrays: Seq<PendingArrayV>)
    requires
        keys_once(arrays),
    ensures
        keys_once(materialized_oexpr(o, arrays).1),
{
    if let Some(e) = o {
        law_keys_stay_apart(e, arrays);
    }
}

/// [`law_keys_stay_apart`] over statements.
proof fn lemma_stmts_apart(v: Seq<StmtV>, arrays: Seq<PendingArrayV>)
    requires
        keys_once(arrays),
    ensures
        keys_once(stmts_materialized(v, arrays).1),
    decreases v.len(),
{
    if v.len() > 0 {
        lemma_stmts_apart(v.drop_last(), arrays);
        let before = stmts_materialized(v.drop_last(), arrays).1;
        match v.last() {
            StmtV::ExprStmt(e) => { law_keys_stay_apart(e, before); },
            StmtV::LocalDef { init, .. } => { lemma_oexpr_apart(init, before); },
            StmtV::Return(e) => { lemma_oexpr_apart(e, before); },
            StmtV::Throw(e) => { law_keys_stay_apart(e, before); },
            StmtV::MonitorEnter(e) => { law_keys_stay_apart(e, before); },
            StmtV::MonitorExit(e) => { law_keys_stay_apart(e, before); },
            _ => {},
        }
    }
}

/// A finished block leaves the waiting initializers apart.
pub proof fn law_block_keeps_keys_apart(st: SimV, arrays: Seq<PendingArrayV>)
    requires
        keys_once(arrays),
    ensures
        keys_once(finished(st, arrays).1),
{
    lemma_stmts_apart(st.stmts, arrays);
    let arrays1 = stmts_materialized(st.stmts, arrays).1;
    match st.term {
        TermV::Return(e) => { lemma_oexpr_apart(e, arrays1); },
        TermV::Throw(e) => { law_keys_stay_apart(e, arrays1); },
        TermV::Cond { cond } => { law_keys_stay_apart(cond, arrays1); },
        TermV::Switch { selector, .. } => { law_keys_stay_apart(selector, arrays1); },
        _ => {},
    }
    lemma_keys_once_exprs(st.stack, term_materialized(st.term, arrays1).1);
}

/// The state before the first instruction of a block.
pub open spec fn at_entry(stack: Seq<ExprV>, declared: Seq<u32>) -> SimV {
    SimV { stack, stmts: seq![], term: TermV::Fallthrough, marks: seq![], declared }
}

/// What a block becomes when nothing is declared yet and no initializer waits.
pub open spec fn built(fr: FrameV, ins: Seq<InstructionV>, stack: Seq<ExprV>) -> Result<
    BlockResultV,
    Seq<char>,
> {
    match followed(at_entry(stack, seq![]), fr, ins, 0) {
        Ok(st) => Ok(finished(st, seq![]).0),
        Err((text, _)) => Err(text),
    }
}

/// Gives the fresh arrays in a statement the initializers that wait for them.
fn materialize_stmt_arrays(s: &mut Stmt, arrays: &mut Vec<PendingArray>)
    ensures
        (final(s)@, pending(final(arrays)@)) == stmt_materialized(old(s)@, pending(old(arrays)@)),
{
    match s {
        Stmt::ExprStmt(e) => materialize_arrays(e, arrays),
        Stmt::LocalDef { init, .. } => materialize_arrays_oexpr(init, arrays),
        Stmt::Return(e) => materialize_arrays_oexpr(e, arrays),
        Stmt::Throw(e) => materialize_arrays(e, arrays),
        Stmt::MonitorEnter(e) => materialize_arrays(e, arrays),
        Stmt::MonitorExit(e) => materialize_arrays(e, arrays),
        _ => {},
    }
}

/// Gives the fresh arrays in statements the initializers that wait for them.
#[verifier::loop_isolation(false)]
fn materialize_stmts(v: &mut Vec<Stmt>, arrays: &mut Vec<PendingArray>)
    ensures
        (stmts(final(v)@), pending(final(arrays)@)) == stmts_materialized(
            stmts(old(v)@),
            pending(old(arrays)@),
        ),
{
    let ghost all = stmts(v@);
    let ghost start = pending(arrays@);
    let mut i: usize = 0;
    assert(all.take(0) =~= seq![]);
    assert(stmts(v@.take(0)) =~= seq![]);
    while i < v.len()
        invariant
            i <= v.len(),
            v.len() == old(v).len(),
            (stmts(v@.take(i as int)), pending(arrays@)) == stmts_materialized(
                all.take(i as int),
                start,
            ),
            forall|j: int| i <= j < v.len() ==> #[trigger] v@[j] == old(v)@[j],
        decreases v.len() - i,
    {
        let ghost before = stmts(v@.take(i as int));
        assert(all.take(i + 1).drop_last() =~= all.take(i as int));
        assert(all.take(i + 1).last() == v@[i as int]@);
        materialize_stmt_arrays(&mut v[i], arrays);
        i += 1;
        assert(stmts(v@.take(i as int)) =~= before.push(v@[i - 1]@));
    }
    assert(v@.take(i as int) =~= v@);
    assert(all.take(i as int) =~= all);
}

/// Gives the fresh arrays at the end of a block the initializers that wait for them.
fn materialize_term_arrays(t: &mut Term, arrays: &mut Vec<PendingArray>)
    ensures
        (final(t)@, pending(final(arrays)@)) == term_materialized(old(t)@, pending(old(arrays)@)),
{
    match t {
        Term::Return(e) => materialize_arrays_oexpr(e, arrays),
        Term::Throw(e) => materialize_arrays(e, arrays),
        Term::Cond { cond } => materialize_arrays(cond, arrays),
        Term::Switch { selector, .. } => materialize_arrays(selector, arrays),
        _ => {},
    }
}

/// Follows instructions.
#[verifier::loop_isolation(false)]
fn follow(st: &mut Sim, fr: &Frame, ins: &Vec<Instruction>) -> (r: Result<(), BuildError>)
    requires
        forall|i: int| 0 <= i < ins.len() ==> is_sound(#[trigger] ins@[i]@),
    ensures
        match r {
            Ok(_) => followed(old(st)@, fr@, instructions(ins@), 0) == Ok::<
                SimV,
                (Seq<char>, Seq<u32>),
            >(final(st)@),
            Err(x) => followed(old(st)@, fr@, instructions(ins@), 0) == Err::<
                SimV,
                (Seq<char>, Seq<u32>),
            >((x.0@, final(st)@.declared)),
        },
{
    let ghost all = instructions(ins@);
    let ghost goal = followed(st@, fr@, all, 0);
    let mut i: usize = 0;
    while i < ins.len()
        invariant
            i <= ins.len(),
            followed(st@, fr@, all, i as int) == goal,
        decreases ins.len() - i,
    {
        assert(is_sound(ins@[i as int]@));
        match do_step(st, fr, ins, i) {
            Ok(n) => {
                i = i + 1 + n;
            },
            Err(x) => {
                return Err(x);
            },
        }
    }
    Ok(())
}

/// Builds the blocks of one method.
#[derive(Debug)]
pub struct Builder<'a> {
    pub pc: &'a PoolClass,
    pub pool: &'a ClassPool,
    pub vt: &'a VarTable,
    pub desc: &'a MethodDescriptor,
    pub is_static: bool,
    /// Stores and loads that cancel out.
    pub fwd: Forwards,
    /// Variables already declared in this method.
    pub declared: Vec<u32>,
    /// Initializers that wait for the array that they belong to.
    pub arrays: Vec<PendingArray>,
}

impl<'a> Builder<'a> {
    /// What the blocks are built against.
    pub open spec fn frame(&self) -> FrameV {
        FrameV {
            pc: self.pc@,
            pool: self.pool@,
            vt: self.vt@,
            is_static: self.is_static,
            fwd: self.fwd@,
        }
    }

    /// At most one initializer waits for arrays of one identity.
    pub open spec fn wf(&self) -> bool {
        keys_once(pending(self.arrays@))
    }

    /// A builder before its first block.
    pub fn new(
        pc: &'a PoolClass,
        pool: &'a ClassPool,
        vt: &'a VarTable,
        desc: &'a MethodDescriptor,
        is_static: bool,
    ) -> (r: Self)
        ensures
            r.frame() == (FrameV { pc: pc@, pool: pool@, vt: vt@, is_static, fwd: no_forwards() }),
            r.desc@ == desc@,
            r.declared@ == Seq::<u32>::empty(),
            pending(r.arrays@) == Seq::<PendingArrayV>::empty(),
            r.wf(),
    {
        let arrays: Vec<PendingArray> = Vec::new();
        assert(pending(arrays@) =~= seq![]);
        Builder {
            pc,
            pool,
            vt,
            desc,
            is_static,
            fwd: Forwards::none(),
            declared: Vec::new(),
            arrays,
        }
    }

    /// The builder with stores and loads that cancel out.
    pub fn with_fwd(self, fwd: Forwards) -> (r: Self)
        ensures
            r.frame() == (FrameV { fwd: fwd@, ..self.frame() }),
            r.desc == self.desc,
            r.declared == self.declared,
            r.arrays == self.arrays,
            r.wf() == self.wf(),
    {
        Builder {
            pc: self.pc,
            pool: self.pool,
            vt: self.vt,
            desc: self.desc,
            is_static: self.is_static,
            fwd,
            declared: self.declared,
            arrays: self.arrays,
        }
    }

    /// Gives the fresh arrays in `e` the initializers that wait for them, each once.
    pub fn materialize_arrays(&mut self, e: Expr) -> (r: Expr)
        ensures
            (r@, pending(final(self).arrays@)) == materialized(e@, pending(old(self).arrays@)),
            final(self).frame() == old(self).frame(),
            final(self).declared == old(self).declared,
            old(self).wf() ==> final(self).wf(),
    {
        proof {
            if self.wf() {
                law_keys_stay_apart(e@, pending(self.arrays@));
            }
        }
        let mut e = e;
        materialize_arrays(&mut e, &mut self.arrays);
        e
    }

    /// Builds one basic block from the operand stack at its entry.
    pub fn build_block(&mut self, ins: &Vec<Instruction>, initial_stack: Vec<Expr>) -> (r: Result<
        BlockResult,
        BuildError,
    >)
        requires
            forall|i: int| 0 <= i < ins.len() ==> is_sound(#[trigger] ins@[i]@),
        ensures
            final(self).frame() == old(self).frame(),
            final(self).desc == old(self).desc,
            old(self).wf() ==> final(self).wf(),
            ({
                let start = at_entry(exprs(initial_stack@), old(self).declared@);
                match followed(start, old(self).frame(), instructions(ins@), 0) {
                    Ok(st) => {
                        &&& r matches Ok(b) && (b@, pending(final(self).arrays@)) == finished(
                            st,
                            pending(old(self).arrays@),
                        )
                        &&& final(self).declared@ == st.declared
                    },
                    Err((text, declared)) => {
                        &&& r matches Err(x) && x.0@ == text
                        &&& final(self).declared@ == declared
                        &&& pending(final(self).arrays@) == pending(old(self).arrays@)
                    },
                }
            }),
    {
        let mut declared: Vec<u32> = Vec::new();
        core::mem::swap(&mut declared, &mut self.declared);
        let fr = Frame {
            pc: self.pc,
            pool: self.pool,
            vt: self.vt,
            is_static: self.is_static,
            fwd: &self.fwd,
        };
        let none: Vec<Stmt> = Vec::new();
        assert(stmts(none@) =~= seq![]);
        let mut st = Sim {
            stack: initial_stack,
            stmts: none,
            term: Term::Fallthrough,
            marks: Vec::new(),
            declared,
        };
        assert(st.marks@ =~= seq![]);
        match follow(&mut st, &fr, ins) {
            Ok(_) => {
                proof {
                    if keys_once(pending(self.arrays@)) {
                        law_block_keeps_keys_apart(st@, pending(self.arrays@));
                    }
                }
                materialize_stmts(&mut st.stmts, &mut self.arrays);
                materialize_term_arrays(&mut st.term, &mut self.arrays);
                materialize_arrays_exprs(&mut st.stack, &mut self.arrays);
                self.declared = st.declared;
                Ok(BlockResult { stmts: st.stmts, out_stack: st.stack, term: st.term })
            },
            Err(x) => {
                self.declared = st.declared;
                Err(x)
            },
        }
    }
}

} // verus!
