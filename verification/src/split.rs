//! Variables that hold values of unrelated types in turn, split into several.
use crate::expr::{
    as_local, concat_parts, exprs, local_var, opt_box, opt_expr, opt_exprs, type_of, ConcatPart,
    ConcatPartV, ConstVal, ConstValV, Expr, ExprV, LambdaExpr, LambdaExprV,
};
use crate::signatures::opt_java;
use crate::stmt::{
    case_groups, catch_list, opt_stmt, stmts, CaseGroup, CaseGroupV, Catch, CatchV, Stmt, StmtV,
};
use crate::text::{append_decimal, decimal};
use crate::types::{erase, object_type, JType, JTypeV, TypeRef, TypeRefV};
use crate::var::{has_var, made_up, next_id, var_slot, var_type, with_type, VarTable, VarTableV};
use std::collections::HashSet;
use vstd::prelude::*;

verus! {

broadcast use vstd::std_specs::hash::group_hash_axioms;

/// What is known while statements are walked: for each variable the one that
/// stands for it now, the type it holds and the last better type it held.
pub struct Split {
    pub vt: VarTable,
    pub active: Vec<Option<u32>>,
    pub cur_ty: Vec<Option<JType>>,
    pub concrete: Vec<Option<JType>>,
    pub seq: u64,
}

/// Model of [`Split`].
pub ghost struct SplitV {
    pub vt: VarTableV,
    pub active: Seq<Option<u32>>,
    pub cur_ty: Seq<Option<JTypeV>>,
    pub concrete: Seq<Option<JTypeV>>,
    pub seq: u64,
}

/// Model of a list of optional types.
pub open spec fn opt_types(v: Seq<Option<JType>>) -> Seq<Option<JTypeV>> {
    Seq::new(v.len(), |i: int| opt_java(v[i]))
}

impl Split {
    pub open spec fn view(&self) -> SplitV {
        SplitV {
            vt: self.vt@,
            active: self.active@,
            cur_ty: opt_types(self.cur_ty@),
            concrete: opt_types(self.concrete@),
            seq: self.seq,
        }
    }
}

/// The variable that stands for `v`.
pub open spec fn stands_for(active: Seq<Option<u32>>, v: u32) -> u32 {
    if v < active.len() {
        match active[v as int] {
            Some(a) => a,
            None => v,
        }
    } else {
        v
    }
}

/// The variable that stands for `v`.
fn current(active: &Vec<Option<u32>>, v: u32) -> (r: u32)
    ensures
        r == stands_for(active@, v),
{
    if (v as usize) < active.len() {
        match active[v as usize] {
            Some(a) => a,
            None => v,
        }
    } else {
        v
    }
}

/// `e` with each variable replaced by the one that stands for it.
pub open spec fn redirected(e: ExprV, active: Seq<Option<u32>>) -> ExprV
    decreases e,
{
    match e {
        ExprV::Local { var, ty } => ExprV::Local { var: stands_for(active, var), ty },
        ExprV::New { cls, ty, args, raw } => ExprV::New {
            cls,
            ty,
            args: redirected_exprs(args, active),
            raw,
        },
        ExprV::NewArray { elem, dims, trailing_dims, init } => ExprV::NewArray {
            elem,
            dims: redirected_exprs(dims, active),
            trailing_dims,
            init: redirected_oexprs(init, active),
        },
        ExprV::Field { owner, cls, name, ty, is_static } => ExprV::Field {
            owner: redirected_opt(owner, active),
            cls,
            name,
            ty,
            is_static,
        },
        ExprV::Method {
            owner,
            cls,
            name,
            desc,
            args,
            is_static,
            is_interface,
            is_special,
            is_super,
            is_dynamic,
            type_args,
        } => ExprV::Method {
            owner: redirected_opt(owner, active),
            cls,
            name,
            desc,
            args: redirected_exprs(args, active),
            is_static,
            is_interface,
            is_special,
            is_super,
            is_dynamic,
            type_args,
        },
        ExprV::ArrayIndex { array, index } => ExprV::ArrayIndex {
            array: Box::new(redirected(*array, active)),
            index: Box::new(redirected(*index, active)),
        },
        ExprV::Cast { ty, e } => ExprV::Cast { ty, e: Box::new(redirected(*e, active)) },
        ExprV::InstanceOf { e, ty } => ExprV::InstanceOf {
            e: Box::new(redirected(*e, active)),
            ty,
        },
        ExprV::Un { op, e } => ExprV::Un { op, e: Box::new(redirected(*e, active)) },
        ExprV::Bin { op, l, r, ty } => ExprV::Bin {
            op,
            l: Box::new(redirected(*l, active)),
            r: Box::new(redirected(*r, active)),
            ty,
        },
        ExprV::Cond { c, t, f } => ExprV::Cond {
            c: Box::new(redirected(*c, active)),
            t: Box::new(redirected(*t, active)),
            f: Box::new(redirected(*f, active)),
        },
        ExprV::Assign { target, op, value } => ExprV::Assign {
            target: Box::new(redirected(*target, active)),
            op,
            value: Box::new(redirected(*value, active)),
        },
        ExprV::PreIncDec { e, delta, wide } => ExprV::PreIncDec {
            e: Box::new(redirected(*e, active)),
            delta,
            wide,
        },
        ExprV::PostIncDec { e, delta, wide } => ExprV::PostIncDec {
            e: Box::new(redirected(*e, active)),
            delta,
            wide,
        },
        ExprV::NewMultiArray { ty, dims } => ExprV::NewMultiArray {
            ty,
            dims: redirected_exprs(dims, active),
        },
        ExprV::Lambda(l) => ExprV::Lambda(Box::new(redirected_captures(*l, active))),
        ExprV::StringConcat(parts) => ExprV::StringConcat(redirected_parts(parts, active)),
        ExprV::Invokedynamic {
            name,
            desc,
            args,
            bsm_text,
            bsm_static_args,
        } => ExprV::Invokedynamic {
            name,
            desc,
            args: redirected_exprs(args, active),
            bsm_text,
            bsm_static_args,
        },
        ExprV::AnonNew { cls, base, args, body } => ExprV::AnonNew {
            cls,
            base,
            args: redirected_exprs(args, active),
            body,
        },
        _ => e,
    }
}

/// [`redirected`] inside the captures of a lambda.
pub open spec fn redirected_captures(l: LambdaExprV, active: Seq<Option<u32>>) -> LambdaExprV
    decreases l,
{
    LambdaExprV { captures: redirected_exprs(l.captures, active), ..l }
}

/// [`redirected`] inside a concatenation piece.
pub open spec fn redirected_part(p: ConcatPartV, active: Seq<Option<u32>>) -> ConcatPartV
    decreases p,
{
    match p {
        ConcatPartV::Str(e) => ConcatPartV::Str(redirected(e, active)),
        ConcatPartV::Const(_) => p,
    }
}

/// [`redirected`] over a list.
pub open spec fn redirected_parts(v: Seq<ConcatPartV>, active: Seq<Option<u32>>) -> Seq<ConcatPartV>
    decreases v,
{
    Seq::new(
        v.len(),
        |i: int| if 0 <= i < v.len() { redirected_part(v[i], active) } else { arbitrary() },
    )
}

/// [`redirected`] where there is a value.
pub open spec fn redirected_opt(
    o: Option<Box<ExprV>>,
    active: Seq<Option<u32>>,
) -> Option<Box<ExprV>>
    decreases o,
{
    match o {
        Some(x) => Some(Box::new(redirected(*x, active))),
        None => None,
    }
}

/// [`redirected`] where there is a value.
pub open spec fn redirected_oexprs(
    o: Option<Seq<ExprV>>,
    active: Seq<Option<u32>>,
) -> Option<Seq<ExprV>>
    decreases o,
{
    match o {
        Some(x) => Some(redirected_exprs(x, active)),
        None => None,
    }
}

/// [`redirected`] over a list.
pub open spec fn redirected_exprs(v: Seq<ExprV>, active: Seq<Option<u32>>) -> Seq<ExprV>
    decreases v,
{
    Seq::new(
        v.len(),
        |i: int| if 0 <= i < v.len() { redirected(v[i], active) } else { arbitrary() },
    )
}

/// [`redirected`] where there is a value.
pub open spec fn redirected_oexpr(o: Option<ExprV>, active: Seq<Option<u32>>) -> Option<ExprV>
    decreases o,
{
    match o {
        Some(x) => Some(redirected(x, active)),
        None => None,
    }
}

/// Replaces each variable in `e` by the one that stands for it.
pub fn redirect(e: &mut Expr, active: &Vec<Option<u32>>)
    ensures
        final(e)@ == redirected(old(e)@, active@),
    decreases *old(e),
{
    match e {
        Expr::Local { var, .. } => { *var = current(active, *var); },
        Expr::New { args, .. } => { redirect_exprs(args, active); },
        Expr::NewArray { dims, init, .. } => {
            redirect_exprs(dims, active);
            redirect_oexprs(init, active);
        },
        Expr::Field { owner, .. } => { redirect_opt(owner, active); },
        Expr::Method { owner, args, .. } => {
            redirect_opt(owner, active);
            redirect_exprs(args, active);
        },
        Expr::ArrayIndex { array, index } => { redirect(array, active); redirect(index, active); },
        Expr::Cast { e, .. } => { redirect(e, active); },
        Expr::InstanceOf { e, .. } => { redirect(e, active); },
        Expr::Un { e, .. } => { redirect(e, active); },
        Expr::Bin { l, r, .. } => { redirect(l, active); redirect(r, active); },
        Expr::Cond { c, t, f } => {
            redirect(c, active);
            redirect(t, active);
            redirect(f, active);
        },
        Expr::Assign { target, value, .. } => {
            redirect(target, active);
            redirect(value, active);
        },
        Expr::PreIncDec { e, .. } => { redirect(e, active); },
        Expr::PostIncDec { e, .. } => { redirect(e, active); },
        Expr::NewMultiArray { dims, .. } => { redirect_exprs(dims, active); },
        Expr::Lambda(l) => { redirect_captures(l, active); },
        Expr::StringConcat(parts) => { redirect_parts(parts, active); },
        Expr::Invokedynamic { args, .. } => { redirect_exprs(args, active); },
        Expr::AnonNew { args, .. } => { redirect_exprs(args, active); },
        _ => {},
    }
}

/// `redirect` inside the captures of a lambda.
pub fn redirect_captures(l: &mut LambdaExpr, active: &Vec<Option<u32>>)
    ensures
        final(l)@ == redirected_captures(old(l)@, active@),
    decreases *old(l),
{
    redirect_exprs(&mut l.captures, active);
}

/// `redirect` inside a concatenation piece.
pub fn redirect_part(p: &mut ConcatPart, active: &Vec<Option<u32>>)
    ensures
        final(p)@ == redirected_part(old(p)@, active@),
    decreases *old(p),
{
    match p {
        ConcatPart::Str(e) => redirect(e, active),
        ConcatPart::Const(_) => {},
    }
}

/// `redirect` over a list.
#[verifier::loop_isolation(false)]
pub fn redirect_parts(v: &mut Vec<ConcatPart>, active: &Vec<Option<u32>>)
    ensures
        concat_parts(final(v)@) == redirected_parts(concat_parts(old(v)@), active@),
    decreases *old(v),
{
    let mut i: usize = 0;
    while i < v.len()
        invariant
            i <= v.len(),
            v.len() == old(v).len(),
            forall|j: int|
                0 <= j < i ==> (#[trigger] v@[j])@ == redirected_part(old(v)@[j]@, active@),
            forall|j: int| i <= j < v.len() ==> #[trigger] v@[j] == old(v)@[j],
        decreases v.len() - i,
    {
        assert(decreases_to!(*old(v) => v@[i as int]));
        redirect_part(&mut v[i], active);
        i += 1;
    }
    assert(concat_parts(v@) =~= redirected_parts(concat_parts(old(v)@), active@));
}

/// `redirect` where there is a value.
pub fn redirect_opt(o: &mut Option<Box<Expr>>, active: &Vec<Option<u32>>)
    ensures
        opt_box(*final(o)) == redirected_opt(opt_box(*old(o)), active@),
    decreases *old(o),
{
    if let Some(x) = o {
        redirect(x, active);
    }
}

/// `redirect` where there is a value.
pub fn redirect_oexprs(o: &mut Option<Vec<Expr>>, active: &Vec<Option<u32>>)
    ensures
        opt_exprs(*final(o)) == redirected_oexprs(opt_exprs(*old(o)), active@),
    decreases *old(o),
{
    if let Some(x) = o {
        redirect_exprs(x, active);
    }
}

/// `redirect` over a list.
#[verifier::loop_isolation(false)]
pub fn redirect_exprs(v: &mut Vec<Expr>, active: &Vec<Option<u32>>)
    ensures
        exprs(final(v)@) == redirected_exprs(exprs(old(v)@), active@),
    decreases *old(v),
{
    let mut i: usize = 0;
    while i < v.len()
        invariant
            i <= v.len(),
            v.len() == old(v).len(),
            forall|j: int| 0 <= j < i ==> (#[trigger] v@[j])@ == redirected(old(v)@[j]@, active@),
            forall|j: int| i <= j < v.len() ==> #[trigger] v@[j] == old(v)@[j],
        decreases v.len() - i,
    {
        assert(decreases_to!(*old(v) => v@[i as int]));
        redirect(&mut v[i], active);
        i += 1;
    }
    assert(exprs(v@) =~= redirected_exprs(exprs(old(v)@), active@));
}

/// `redirect` where there is a value.
pub fn redirect_oexpr(o: &mut Option<Expr>, active: &Vec<Option<u32>>)
    ensures
        opt_expr(*final(o)) == redirected_oexpr(opt_expr(*old(o)), active@),
    decreases *old(o),
{
    if let Some(x) = o {
        redirect(x, active);
    }
}

/// Primitive types.
pub open spec fn is_numeric(t: JTypeV) -> bool {
    !(t is Void || t is Object || t is Array)
}

/// Whether `t` is primitive.
pub fn numeric(t: &JType) -> (r: bool)
    ensures
        r == is_numeric(t@),
{
    !matches!(t, JType::Void | JType::Object(_) | JType::Array(_))
}

/// How an assignment of a value of type `nt` bears on a variable.
pub ghost enum Turn {
    /// The value starts a new variable.
    Split,
    /// The variable is found to be of type `nt`.
    Narrow,
    /// The variable stays as it is.
    Stay,
}

/// How a value of type `nt` bears on a variable that held `prev`, and `last` as
/// its last better type.
pub open spec fn turn(prev: Option<JTypeV>, last: Option<JTypeV>, nt: JTypeV) -> Turn {
    match prev {
        None => Turn::Stay,
        Some(p) => if p == nt {
            Turn::Stay
        } else if p != object_type() {
            if is_numeric(p) && is_numeric(nt) {
                Turn::Stay
            } else {
                Turn::Split
            }
        } else if is_numeric(nt) {
            Turn::Stay
        } else if last matches Some(c) && c != nt {
            Turn::Split
        } else {
            Turn::Narrow
        },
    }
}

/// The table with variable `id` given type `t`, where it was plain `Object`.
pub open spec fn object_narrowed(vt: VarTableV, id: u32, t: JTypeV) -> VarTableV {
    if has_var(vt, id) && erase(vt.vars[id as int].ty) == object_type() {
        with_type(vt, id, TypeRefV::J(t))
    } else {
        vt
    }
}

/// Name of variable `id`; an unknown one has none.
pub open spec fn name_of(vt: VarTableV, id: u32) -> Seq<char> {
    if has_var(vt, id) {
        vt.vars[id as int].name
    } else {
        seq![]
    }
}

/// The counter after the next split.
pub open spec fn next_seq(seq: u64) -> u64 {
    if seq == u64::MAX {
        0
    } else {
        (seq + 1) as u64
    }
}

/// An assignment of `value` to variable `var`: the variable that takes it and what
/// is known afterwards. Only made-up variables of `synth` that merge no unrelated
/// types are followed.
pub open spec fn assign_split(var: u32, value: ExprV, synth: Seq<bool>, st: SplitV) -> (
    u32,
    SplitV,
) {
    let cur = stands_for(st.active, var);
    let nt = erase(type_of(value));
    if !(var < synth.len() && synth[var as int] && var < st.cur_ty.len() && var < st.concrete.len()
        && var < st.active.len()) || st.vt.wide_stack_vars.contains(var) || value == ExprV::Const(
        ConstValV::Null,
    ) || nt is Void {
        (cur, st)
    } else {
        let v = var as int;
        let better = if nt == object_type() {
            st.concrete
        } else {
            st.concrete.update(v, Some(nt))
        };
        match turn(st.cur_ty[v], st.concrete[v], nt) {
            Turn::Split => {
                let id = next_id(st.vt);
                let seq = next_seq(st.seq);
                (
                    id,
                    SplitV {
                        vt: VarTableV {
                            vars: st.vt.vars.push(
                                made_up(
                                    st.vt,
                                    var_slot(st.vt, cur),
                                    name_of(st.vt, cur) + decimal(seq as nat),
                                    TypeRefV::J(nt),
                                ),
                            ),
                            ..st.vt
                        },
                        active: st.active.update(v, Some(id)),
                        cur_ty: st.cur_ty.update(v, Some(nt)),
                        concrete: st.concrete.update(v, Some(nt)),
                        seq,
                    },
                )
            },
            Turn::Narrow => (
                cur,
                SplitV {
                    vt: object_narrowed(st.vt, cur, nt),
                    cur_ty: st.cur_ty.update(v, Some(nt)),
                    concrete: better,
                    ..st
                },
            ),
            Turn::Stay => if st.cur_ty[v] is None {
                (
                    cur,
                    SplitV {
                        vt: object_narrowed(st.vt, cur, nt),
                        cur_ty: st.cur_ty.update(v, Some(nt)),
                        concrete: better,
                        ..st
                    },
                )
            } else {
                (cur, SplitV { concrete: better, ..st })
            },
        }
    }
}

/// Gives variable `id` type `t` where it was plain `Object`.
fn narrow_object(vt: &mut VarTable, id: u32, t: &JType)
    ensures
        final(vt)@ == object_narrowed(old(vt)@, id, t@),
{
    if (id as usize) < vt.vars.len() && vt.vars[id as usize].ty.erased().is_object(
        "java/lang/Object",
    ) {
        vt.set_type(id, TypeRef::J(t.clone()));
    }
}

/// Sets entry `v` of a list of optional types.
fn put(l: &mut Vec<Option<JType>>, v: usize, t: &JType)
    requires
        v < old(l).len(),
    ensures
        opt_types(final(l)@) == opt_types(old(l)@).update(v as int, Some(t@)),
{
    l[v] = Some(t.clone());
    assert(opt_types(l@) =~= opt_types(old(l)@).update(v as int, Some(t@)));
}

/// Follows an assignment of `value` to `var`; the variable that takes it.
fn handle_assign(var: u32, value: &Expr, synth: &Vec<bool>, st: &mut Split) -> (id: u32)
    ensures
        (id, final(st)@) == assign_split(var, value@, synth@, old(st)@),
{
    let cur = current(&st.active, var);
    let v = var as usize;
    if !(v < synth.len() && synth[v] && v < st.cur_ty.len() && v < st.concrete.len() && v
        < st.active.len()) || st.vt.wide_stack_vars.contains(&var) {
        return cur;
    }
    if let Expr::Const(ConstVal::Null) = value {
        return cur;
    }
    let nt = value.type_ref().erased();
    if matches!(&nt, JType::Void) {
        return cur;
    }
    assert(opt_types(st.cur_ty@)[v as int] == opt_java(st.cur_ty@[v as int]));
    assert(opt_types(st.concrete@)[v as int] == opt_java(st.concrete@[v as int]));
    let unknown = nt.is_object("java/lang/Object");
    let mut split = false;
    let mut narrow = false;
    match &st.cur_ty[v] {
        None => {
            narrow = true;
        },
        Some(p) => {
            if !p.same(&nt) {
                if !p.is_object("java/lang/Object") {
                    split = !(numeric(p) && numeric(&nt));
                } else if !numeric(&nt) {
                    split = match &st.concrete[v] {
                        Some(c) => !c.same(&nt),
                        None => false,
                    };
                    narrow = !split;
                }
            }
        },
    }
    if split {
        let slot = st.vt.var_slot(cur);
        st.seq = if st.seq == u64::MAX {
            0
        } else {
            st.seq + 1
        };
        let mut name = if (cur as usize) < st.vt.vars.len() {
            st.vt.vars[cur as usize].name.clone()
        } else {
            String::new()
        };
        assert(name@ =~= name_of(st.vt@, cur));
        append_decimal(&mut name, st.seq as u128);
        let id = st.vt.add_split(slot, name, TypeRef::J(nt.clone()));
        st.active[v] = Some(id);
        put(&mut st.cur_ty, v, &nt);
        put(&mut st.concrete, v, &nt);
        return id;
    }
    if narrow {
        put(&mut st.cur_ty, v, &nt);
        narrow_object(&mut st.vt, cur, &nt);
    }
    if !unknown {
        put(&mut st.concrete, v, &nt);
    }
    cur
}

/// An assignment statement: the value with variables redirected, the target
/// replaced by the variable that takes it.
pub open spec fn assign_walked(e: ExprV, synth: Seq<bool>, st: SplitV) -> (ExprV, SplitV) {
    match e {
        ExprV::Assign { target, op, value } => match as_local(*target) {
            Some(v) => {
                let (id, st1) = assign_split(v, *value, synth, st);
                (
                    ExprV::Assign {
                        target: Box::new(ExprV::Local { var: id, ty: var_type(st1.vt, id) }),
                        op,
                        value: Box::new(redirected(*value, st1.active)),
                    },
                    st1,
                )
            },
            None => (redirected(e, st.active), st),
        },
        _ => (redirected(e, st.active), st),
    }
}

/// Walks an assignment statement.
fn walk_assign(e: &mut Expr, synth: &Vec<bool>, st: &mut Split)
    ensures
        (final(e)@, final(st)@) == assign_walked(old(e)@, synth@, old(st)@),
{
    proof {
        reveal_with_fuel(Expr::view, 2);
    }
    let v = match e {
        Expr::Assign { target, .. } => local_var(target),
        _ => None,
    };
    match v {
        Some(v) => {
            if let Expr::Assign { target, value, .. } = e {
                let id = handle_assign(v, value, synth, st);
                redirect(value, &st.active);
                **target = Expr::Local { var: id, ty: st.vt.var_type(id) };
            }
        },
        None => redirect(e, &st.active),
    }
}

/// `s` with its variables split, and what is known after it, front to back.
pub open spec fn split_walked(s: StmtV, synth: Seq<bool>, st: SplitV) -> (StmtV, SplitV)
    decreases s,
{
    match s {
        StmtV::Block(items) => {
            let (items1, st1) = split_walked_seq(items, synth, st);
            (StmtV::Block(items1), st1)
        },
        StmtV::ExprStmt(e) => {
            let (x, st1) = assign_walked(e, synth, st);
            (StmtV::ExprStmt(x), st1)
        },
        StmtV::LocalDef { var, init, is_final, force_type } => match init {
            Some(e) => {
                let (id, st1) = assign_split(var, e, synth, st);
                (
                    StmtV::LocalDef {
                        var: id,
                        init: Some(redirected(e, st1.active)),
                        is_final,
                        force_type,
                    },
                    st1,
                )
            },
            None => (s, st),
        },
        StmtV::Return(e) => { (StmtV::Return(redirected_oexpr(e, st.active)), st) },
        StmtV::Throw(e) => { (StmtV::Throw(redirected(e, st.active)), st) },
        StmtV::If { cond, then_stmt, else_stmt } => {
            let (then_stmt1, st2) = split_walked(*then_stmt, synth, st);
            let (else_stmt1, st3) = split_walked_opt(else_stmt, synth, st2);
            (
                StmtV::If {
                    cond: redirected(cond, st.active),
                    then_stmt: Box::new(then_stmt1),
                    else_stmt: else_stmt1,
                },
                st3,
            )
        },
        StmtV::While { cond, body } => {
            let (body1, st2) = split_walked(*body, synth, st);
            (StmtV::While { cond: redirected(cond, st.active), body: Box::new(body1) }, st2)
        },
        StmtV::DoWhile { body, cond } => {
            let (body1, st1) = split_walked(*body, synth, st);
            (StmtV::DoWhile { body: Box::new(body1), cond: redirected(cond, st1.active) }, st1)
        },
        StmtV::For { init, cond, update, body } => {
            let (init1, st1) = split_walked_seq(init, synth, st);
            let (body1, st3) = split_walked(*body, synth, st1);
            (
                StmtV::For {
                    init: init1,
                    cond: redirected_oexpr(cond, st1.active),
                    update: redirected_exprs(update, st3.active),
                    body: Box::new(body1),
                },
                st3,
            )
        },
        StmtV::ForEach { var, iterable, is_array, body } => {
            let (body1, st2) = split_walked(*body, synth, st);
            (
                StmtV::ForEach {
                    var,
                    iterable: redirected(iterable, st.active),
                    is_array,
                    body: Box::new(body1),
                },
                st2,
            )
        },
        StmtV::Switch { selector, cases, default, on_string } => {
            let (cases1, st2) = split_walked_cases(cases, synth, st);
            let (default1, st3) = split_walked_opt(default, synth, st2);
            (
                StmtV::Switch {
                    selector: redirected(selector, st.active),
                    cases: cases1,
                    default: default1,
                    on_string,
                },
                st3,
            )
        },
        StmtV::Try { body, catches, finally } => {
            let (body1, st1) = split_walked(*body, synth, st);
            let (catches1, st2) = split_walked_catches(catches, synth, st1);
            let (finally1, st3) = split_walked_opt(finally, synth, st2);
            (StmtV::Try { body: Box::new(body1), catches: catches1, finally: finally1 }, st3)
        },
        StmtV::TryWithResources { resources, body, catches, finally } => {
            let (resources1, st1) = split_walked_seq(resources, synth, st);
            let (body1, st2) = split_walked(*body, synth, st1);
            let (catches1, st3) = split_walked_catches(catches, synth, st2);
            let (finally1, st4) = split_walked_opt(finally, synth, st3);
            (
                StmtV::TryWithResources {
                    resources: resources1,
                    body: Box::new(body1),
                    catches: catches1,
                    finally: finally1,
                },
                st4,
            )
        },
        StmtV::Synchronized { lock, body } => {
            let (body1, st2) = split_walked(*body, synth, st);
            (StmtV::Synchronized { lock: redirected(lock, st.active), body: Box::new(body1) }, st2)
        },
        StmtV::Label(n) => { (StmtV::Label(n), st) },
        StmtV::Goto(n) => { (StmtV::Goto(n), st) },
        StmtV::ClassDecl { name, header, body } => {
            (StmtV::ClassDecl { name, header, body }, st)
        },
        StmtV::Labeled { label, body } => {
            let (body1, st1) = split_walked(*body, synth, st);
            (StmtV::Labeled { label, body: Box::new(body1) }, st1)
        },
        StmtV::Break(label) => { (StmtV::Break(label), st) },
        StmtV::Continue(label) => { (StmtV::Continue(label), st) },
        StmtV::Comment(text) => { (StmtV::Comment(text), st) },
        StmtV::Assert { cond, msg } => {
            (
                StmtV::Assert {
                    cond: redirected(cond, st.active),
                    msg: redirected_oexpr(msg, st.active),
                },
                st,
            )
        },
        StmtV::TernaryValue { e } => { (StmtV::TernaryValue { e: redirected(e, st.active) }, st) },
        StmtV::MonitorEnter(e) => { (StmtV::MonitorEnter(redirected(e, st.active)), st) },
        StmtV::MonitorExit(e) => { (StmtV::MonitorExit(redirected(e, st.active)), st) },
        _ => (s, st),
    }
}

/// [`split_walked`] where there is a value.
pub open spec fn split_walked_opt(
    o: Option<Box<StmtV>>,
    synth: Seq<bool>,
    st: SplitV,
) -> (Option<Box<StmtV>>, SplitV)
    decreases o,
{
    match o {
        Some(x) => {
            let (y, st1) = split_walked(*x, synth, st);
            (Some(Box::new(y)), st1)
        },
        None => (None, st),
    }
}

/// [`split_walked`] over a list, in order.
pub open spec fn split_walked_seq(
    v: Seq<StmtV>,
    synth: Seq<bool>,
    st: SplitV,
) -> (Seq<StmtV>, SplitV)
    decreases v,
{
    if v.len() == 0 {
        (seq![], st)
    } else {
        let (front, st1) = split_walked_seq(v.drop_last(), synth, st);
        let (last, st2) = split_walked(v.last(), synth, st1);
        (front.push(last), st2)
    }
}

/// [`split_walked`] inside a switch arm.
pub open spec fn split_walked_case(
    c: CaseGroupV,
    synth: Seq<bool>,
    st: SplitV,
) -> (CaseGroupV, SplitV)
    decreases c,
{
    let (body, st9) = split_walked_seq(c.body, synth, st);
    (CaseGroupV { guard: redirected_oexpr(c.guard, st.active), body, ..c }, st9)
}

/// [`split_walked`] over a list, in order.
pub open spec fn split_walked_cases(
    v: Seq<CaseGroupV>,
    synth: Seq<bool>,
    st: SplitV,
) -> (Seq<CaseGroupV>, SplitV)
    decreases v,
{
    if v.len() == 0 {
        (seq![], st)
    } else {
        let (front, st1) = split_walked_cases(v.drop_last(), synth, st);
        let (last, st2) = split_walked_case(v.last(), synth, st1);
        (front.push(last), st2)
    }
}

/// [`split_walked`] inside a catch clause.
pub open spec fn split_walked_catch(c: CatchV, synth: Seq<bool>, st: SplitV) -> (CatchV, SplitV)
    decreases c,
{
    let (body, st9) = split_walked(*c.body, synth, st);
    (CatchV { body: Box::new(body), ..c }, st9)
}

/// [`split_walked`] over a list, in order.
pub open spec fn split_walked_catches(
    v: Seq<CatchV>,
    synth: Seq<bool>,
    st: SplitV,
) -> (Seq<CatchV>, SplitV)
    decreases v,
{
    if v.len() == 0 {
        (seq![], st)
    } else {
        let (front, st1) = split_walked_catches(v.drop_last(), synth, st);
        let (last, st2) = split_walked_catch(v.last(), synth, st1);
        (front.push(last), st2)
    }
}

/// Walks `s` front to back, splitting variables.
pub fn split_walk(s: &mut Stmt, synth: &Vec<bool>, st: &mut Split)
    ensures
        final(s)@ == split_walked(old(s)@, synth@, old(st)@).0,
        final(st)@ == split_walked(old(s)@, synth@, old(st)@).1,
    decreases *old(s),
{
    match s {
        Stmt::Block(items) => { split_walk_vec(items, synth, st); },
        Stmt::ExprStmt(e) => walk_assign(e, synth, st),
        Stmt::LocalDef { var, init, .. } => {
            if let Some(e) = init {
                let id = handle_assign(*var, e, synth, st);
                redirect(e, &st.active);
                *var = id;
            }
        },
        Stmt::Return(e) => { redirect_oexpr(e, &st.active); },
        Stmt::Throw(e) => { redirect(e, &st.active); },
        Stmt::If { cond, then_stmt, else_stmt } => {
            redirect(cond, &st.active);
            split_walk(then_stmt, synth, st);
            split_walk_opt(else_stmt, synth, st);
        },
        Stmt::While { cond, body } => { redirect(cond, &st.active); split_walk(body, synth, st); },
        Stmt::DoWhile { body, cond } => {
            split_walk(body, synth, st);
            redirect(cond, &st.active);
        },
        Stmt::For { init, cond, update, body } => {
            split_walk_vec(init, synth, st);
            redirect_oexpr(cond, &st.active);
            split_walk(body, synth, st);
            redirect_exprs(update, &st.active);
        },
        Stmt::ForEach { iterable, body, .. } => {
            redirect(iterable, &st.active);
            split_walk(body, synth, st);
        },
        Stmt::Switch { selector, cases, default, .. } => {
            redirect(selector, &st.active);
            split_walk_cases(cases, synth, st);
            split_walk_opt(default, synth, st);
        },
        Stmt::Try { body, catches, finally } => {
            split_walk(body, synth, st);
            split_walk_catches(catches, synth, st);
            split_walk_opt(finally, synth, st);
        },
        Stmt::TryWithResources { resources, body, catches, finally } => {
            split_walk_vec(resources, synth, st);
            split_walk(body, synth, st);
            split_walk_catches(catches, synth, st);
            split_walk_opt(finally, synth, st);
        },
        Stmt::Synchronized { lock, body } => {
            redirect(lock, &st.active);
            split_walk(body, synth, st);
        },
        Stmt::Label(_) => {  },
        Stmt::Goto(_) => {  },
        Stmt::ClassDecl { .. } => {  },
        Stmt::Labeled { body, .. } => { split_walk(body, synth, st); },
        Stmt::Break(_) => {  },
        Stmt::Continue(_) => {  },
        Stmt::Comment(_) => {  },
        Stmt::Assert { cond, msg } => {
            redirect(cond, &st.active);
            redirect_oexpr(msg, &st.active);
        },
        Stmt::TernaryValue { e } => { redirect(e, &st.active); },
        Stmt::MonitorEnter(e) => { redirect(e, &st.active); },
        Stmt::MonitorExit(e) => { redirect(e, &st.active); },
        _ => {},
    }
}

/// `split_walk` where there is a value.
pub fn split_walk_opt(o: &mut Option<Box<Stmt>>, synth: &Vec<bool>, st: &mut Split)
    ensures
        opt_stmt(*final(o)) == split_walked_opt(opt_stmt(*old(o)), synth@, old(st)@).0,
        final(st)@ == split_walked_opt(opt_stmt(*old(o)), synth@, old(st)@).1,
    decreases *old(o),
{
    if let Some(x) = o {
        split_walk(x, synth, st);
    }
}

/// `split_walk` over a list, in order.
#[verifier::loop_isolation(false)]
pub fn split_walk_vec(v: &mut Vec<Stmt>, synth: &Vec<bool>, st: &mut Split)
    ensures
        stmts(final(v)@) == split_walked_seq(stmts(old(v)@), synth@, old(st)@).0,
        final(st)@ == split_walked_seq(stmts(old(v)@), synth@, old(st)@).1,
    decreases *old(v),
{
    let mut i: usize = 0;
    assert(stmts(v@.take(0)) =~= seq![]);
    while i < v.len()
        invariant
            i <= v.len(),
            v.len() == old(v).len(),
            stmts(v@.take(i as int)) == split_walked_seq(
                stmts(old(v)@).take(i as int),
                synth@,
                old(st)@,
            ).0,
            st@ == split_walked_seq(stmts(old(v)@).take(i as int), synth@, old(st)@).1,
            forall|j: int| i <= j < v.len() ==> #[trigger] v@[j] == old(v)@[j],
        decreases v.len() - i,
    {
        let ghost before = stmts(v@.take(i as int));
        let ghost done = stmts(old(v)@).take(i + 1);
        assert(done.drop_last() =~= stmts(old(v)@).take(i as int));
        assert(done.last() == v@[i as int]@);
        assert(decreases_to!(*old(v) => v@[i as int]));
        split_walk(&mut v[i], synth, st);
        i += 1;
        assert(stmts(v@.take(i as int)) =~= before.push(v@[i - 1]@));
    }
    assert(v@.take(i as int) =~= v@);
    assert(stmts(old(v)@).take(i as int) =~= stmts(old(v)@));
}

/// `split_walk` inside a switch arm.
pub fn split_walk_case(c: &mut CaseGroup, synth: &Vec<bool>, st: &mut Split)
    ensures
        final(c)@ == split_walked_case(old(c)@, synth@, old(st)@).0,
        final(st)@ == split_walked_case(old(c)@, synth@, old(st)@).1,
    decreases *old(c),
{
    redirect_oexpr(&mut c.guard, &st.active);
    split_walk_vec(&mut c.body, synth, st);
}

/// `split_walk` over a list, in order.
#[verifier::loop_isolation(false)]
pub fn split_walk_cases(v: &mut Vec<CaseGroup>, synth: &Vec<bool>, st: &mut Split)
    ensures
        case_groups(final(v)@) == split_walked_cases(case_groups(old(v)@), synth@, old(st)@).0,
        final(st)@ == split_walked_cases(case_groups(old(v)@), synth@, old(st)@).1,
    decreases *old(v),
{
    let mut i: usize = 0;
    assert(case_groups(v@.take(0)) =~= seq![]);
    while i < v.len()
        invariant
            i <= v.len(),
            v.len() == old(v).len(),
            case_groups(v@.take(i as int)) == split_walked_cases(
                case_groups(old(v)@).take(i as int),
                synth@,
                old(st)@,
            ).0,
            st@ == split_walked_cases(case_groups(old(v)@).take(i as int), synth@, old(st)@).1,
            forall|j: int| i <= j < v.len() ==> #[trigger] v@[j] == old(v)@[j],
        decreases v.len() - i,
    {
        let ghost before = case_groups(v@.take(i as int));
        let ghost done = case_groups(old(v)@).take(i + 1);
        assert(done.drop_last() =~= case_groups(old(v)@).take(i as int));
        assert(done.last() == v@[i as int]@);
        assert(decreases_to!(*old(v) => v@[i as int]));
        split_walk_case(&mut v[i], synth, st);
        i += 1;
        assert(case_groups(v@.take(i as int)) =~= before.push(v@[i - 1]@));
    }
    assert(v@.take(i as int) =~= v@);
    assert(case_groups(old(v)@).take(i as int) =~= case_groups(old(v)@));
}

/// `split_walk` inside a catch clause.
pub fn split_walk_catch(c: &mut Catch, synth: &Vec<bool>, st: &mut Split)
    ensures
        final(c)@ == split_walked_catch(old(c)@, synth@, old(st)@).0,
        final(st)@ == split_walked_catch(old(c)@, synth@, old(st)@).1,
    decreases *old(c),
{
    split_walk(&mut c.body, synth, st);
}

/// `split_walk` over a list, in order.
#[verifier::loop_isolation(false)]
pub fn split_walk_catches(v: &mut Vec<Catch>, synth: &Vec<bool>, st: &mut Split)
    ensures
        catch_list(final(v)@) == split_walked_catches(catch_list(old(v)@), synth@, old(st)@).0,
        final(st)@ == split_walked_catches(catch_list(old(v)@), synth@, old(st)@).1,
    decreases *old(v),
{
    let mut i: usize = 0;
    assert(catch_list(v@.take(0)) =~= seq![]);
    while i < v.len()
        invariant
            i <= v.len(),
            v.len() == old(v).len(),
            catch_list(v@.take(i as int)) == split_walked_catches(
                catch_list(old(v)@).take(i as int),
                synth@,
                old(st)@,
            ).0,
            st@ == split_walked_catches(catch_list(old(v)@).take(i as int), synth@, old(st)@).1,
            forall|j: int| i <= j < v.len() ==> #[trigger] v@[j] == old(v)@[j],
        decreases v.len() - i,
    {
        let ghost before = catch_list(v@.take(i as int));
        let ghost done = catch_list(old(v)@).take(i + 1);
        assert(done.drop_last() =~= catch_list(old(v)@).take(i as int));
        assert(done.last() == v@[i as int]@);
        assert(decreases_to!(*old(v) => v@[i as int]));
        split_walk_catch(&mut v[i], synth, st);
        i += 1;
        assert(catch_list(v@.take(i as int)) =~= before.push(v@[i - 1]@));
    }
    assert(v@.take(i as int) =~= v@);
    assert(catch_list(old(v)@).take(i as int) =~= catch_list(old(v)@));
}

/// The variables that may be split: made-up ones that are no parameters.
pub open spec fn splittable(vt: VarTableV) -> Seq<bool> {
    Seq::new(vt.vars.len(), |i: int| vt.vars[i].synthetic_name && !vt.vars[i].is_param)
}

/// What is known before the first statement.
pub open spec fn split_start(vt: VarTableV) -> SplitV {
    SplitV {
        vt,
        active: Seq::new(vt.vars.len(), |i: int| None::<u32>),
        cur_ty: Seq::new(vt.vars.len(), |i: int| None::<JTypeV>),
        concrete: Seq::new(vt.vars.len(), |i: int| None::<JTypeV>),
        seq: 0,
    }
}

/// A body and table with its variables split.
pub open spec fn split_done(body: StmtV, vt: VarTableV) -> (StmtV, VarTableV) {
    let (s, st) = split_walked(body, splittable(vt), split_start(vt));
    (s, st.vt)
}

/// Splits made-up variables that hold values of unrelated types in turn.
#[verifier::loop_isolation(false)]
pub fn split_reassigned_synthetic(vt: &mut VarTable, body: &mut Stmt)
    ensures
        (final(body)@, final(vt)@) == split_done(old(body)@, old(vt)@),
{
    let mut taken = VarTable {
        vars: Vec::new(),
        by_slot: Vec::new(),
        has_lvt: false,
        stack_vars: Vec::new(),
        wide_stack_vars: HashSet::new(),
        handler_starts: Vec::new(),
    };
    core::mem::swap(vt, &mut taken);
    let n = taken.vars.len();
    let mut synth: Vec<bool> = Vec::new();
    let mut st = Split {
        vt: taken,
        active: Vec::new(),
        cur_ty: Vec::new(),
        concrete: Vec::new(),
        seq: 0,
    };
    let mut i: usize = 0;
    while i < n
        invariant
            i <= n,
            n == st.vt.vars.len(),
            st.vt == *old(vt),
            st.seq == 0,
            synth.len() == i,
            st.active.len() == i,
            st.cur_ty.len() == i,
            st.concrete.len() == i,
            forall|j: int|
                0 <= j < i ==> #[trigger] synth@[j] == (st.vt.vars@[j].synthetic_name
                    && !st.vt.vars@[j].is_param),
            forall|j: int| 0 <= j < i ==> #[trigger] st.active@[j] is None,
            forall|j: int| 0 <= j < i ==> #[trigger] st.cur_ty@[j] is None,
            forall|j: int| 0 <= j < i ==> #[trigger] st.concrete@[j] is None,
        decreases n - i,
    {
        synth.push(st.vt.vars[i].synthetic_name && !st.vt.vars[i].is_param);
        st.active.push(None);
        st.cur_ty.push(None);
        st.concrete.push(None);
        i += 1;
    }
    assert(synth@ =~= splittable(old(vt)@));
    assert(st@.active =~= split_start(old(vt)@).active);
    assert(st@.cur_ty =~= split_start(old(vt)@).cur_ty);
    assert(st@.concrete =~= split_start(old(vt)@).concrete);
    split_walk(body, &synth, &mut st);
    *vt = st.vt;
}

} // verus!
