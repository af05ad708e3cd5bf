//! Type inference for made-up variables.
use crate::classes::{PoolClass, PoolClassV};
use crate::expr::{
    as_local, concat_parts, exprs, local_var, opt_box, opt_expr, opt_exprs, type_of, AssignOp,
    BinOp, ConcatPart, ConcatPartV, ConstVal, ConstValV, Expr, ExprV, LambdaExpr, LambdaExprV, UnOp,
};
use crate::retype::{local_types, rewrite_local_types, stmt_retyped, var_types};
use crate::split::{split_done, split_reassigned_synthetic};
use crate::stmt::{
    case_groups, catch_list, opt_stmt, stmts, CaseGroup, CaseGroupV, Catch, CatchV, Stmt, StmtV,
};
use crate::text::contains_u32;
use crate::types::{erase, java_types, object, object_type, JType, JTypeV, TypeRef, TypeRefV};
use crate::var::{has_var, var_infos, with_type, VarInfoV, VarTable, VarTableV};
use std::collections::HashSet;
use vstd::prelude::*;

verus! {

broadcast use vstd::std_specs::hash::group_hash_axioms;

// ---------------------------------------------------------------------
// Joins.

/// Rank of a primitive in widening order; everything else ranks lowest.
pub open spec fn num_rank(t: JTypeV) -> int {
    match t {
        JTypeV::Boolean | JTypeV::Byte | JTypeV::Char | JTypeV::Short | JTypeV::Int => 1,
        JTypeV::Long => 2,
        JTypeV::Float => 3,
        JTypeV::Double => 4,
        _ => -1,
    }
}

/// The class `java/lang/Throwable`.
pub open spec fn throwable_class() -> JTypeV {
    JTypeV::Object("java/lang/Throwable"@)
}

/// Classes and arrays.
pub open spec fn is_reference(t: JTypeV) -> bool {
    t is Object || t is Array
}

/// The type that holds values of both types: `Throwable` and `Object` give way to
/// other references, primitives widen and give way to references, and unrelated
/// references meet in `Object`.
pub open spec fn joined(a: JTypeV, b: JTypeV) -> JTypeV {
    if a == b {
        a
    } else if a == throwable_class() && is_reference(b) {
        b
    } else if b == throwable_class() && is_reference(a) {
        a
    } else if num_rank(a) >= 1 && num_rank(b) >= 1 {
        if num_rank(a) >= num_rank(b) {
            a
        } else {
            b
        }
    } else if is_reference(a) && is_reference(b) {
        if a == object_type() {
            b
        } else if b == object_type() {
            a
        } else {
            object_type()
        }
    } else if is_reference(b) {
        b
    } else {
        a
    }
}

/// The joined type is one of the two or `Object`; of two primitives it is no narrower
/// than either, with a reference it is a reference, and equal types stay.
pub proof fn law_join_is_an_upper_bound(a: JTypeV, b: JTypeV)
    ensures
        joined(a, b) == a || joined(a, b) == b || joined(a, b) == object_type(),
        num_rank(a) >= 1 && num_rank(b) >= 1 ==> num_rank(joined(a, b)) >= num_rank(a) && num_rank(
            joined(a, b),
        ) >= num_rank(b),
        is_reference(a) || is_reference(b) ==> is_reference(joined(a, b)),
        joined(a, a) == a,
{
}

/// Rank of a primitive in widening order.
fn rank(t: &JType) -> (r: i8)
    ensures
        r == num_rank(t@),
{
    match t {
        JType::Boolean | JType::Byte | JType::Char | JType::Short | JType::Int => 1,
        JType::Long => 2,
        JType::Float => 3,
        JType::Double => 4,
        _ => -1,
    }
}

/// Whether `t` is a class or array.
pub fn reference(t: &JType) -> (r: bool)
    ensures
        r == is_reference(t@),
{
    matches!(t, JType::Object(_) | JType::Array(_))
}

/// The type that holds values of both types.
pub fn join_types(a: &JType, b: &JType) -> (r: JType)
    ensures
        r@ == joined(a@, b@),
{
    if a.same(b) {
        return a.clone();
    }
    if a.is_object("java/lang/Throwable") && reference(b) {
        return b.clone();
    }
    if b.is_object("java/lang/Throwable") && reference(a) {
        return a.clone();
    }
    let ra = rank(a);
    let rb = rank(b);
    if ra >= 1 && rb >= 1 {
        return if ra >= rb {
            a.clone()
        } else {
            b.clone()
        };
    }
    if reference(a) && reference(b) {
        if a.is_object("java/lang/Object") {
            return b.clone();
        }
        if b.is_object("java/lang/Object") {
            return a.clone();
        }
        return object("java/lang/Object");
    }
    if reference(b) {
        return b.clone();
    }
    a.clone()
}

/// Running join of the first `n` types, and whether two of them met in `Object`
/// that neither was.
pub open spec fn join_run(types: Seq<JTypeV>, n: nat) -> (JTypeV, bool)
    decreases n,
{
    if n <= 1 {
        (types[0], false)
    } else {
        let (acc, met) = join_run(types, (n - 1) as nat);
        let t = types[n - 1];
        let j = joined(acc, t);
        (j, met || (j == object_type() && acc != object_type() && t != object_type()))
    }
}

/// The join of all types; `Object` once two of them had nothing else in common.
pub open spec fn combined(types: Seq<JTypeV>) -> Option<JTypeV> {
    if types.len() == 0 {
        None
    } else {
        let (acc, met) = join_run(types, types.len());
        if met {
            Some(object_type())
        } else {
            Some(acc)
        }
    }
}

/// The join of all types.
pub fn combine_types(types: &Vec<JType>) -> (r: Option<JType>)
    ensures
        match r {
            Some(t) => combined(java_types(types@)) == Some(t@),
            None => combined(java_types(types@)) is None,
        },
{
    if types.len() == 0 {
        return None;
    }
    let ghost all = java_types(types@);
    let mut acc = types[0].clone();
    let mut met = false;
    let mut i: usize = 1;
    assert(all[0] == types@[0]@);
    while i < types.len()
        invariant
            1 <= i <= types.len(),
            all == java_types(types@),
            (acc@, met) == join_run(all, i as nat),
        decreases types.len() - i,
    {
        assert(all[i as int] == types@[i as int]@);
        let j = join_types(&acc, &types[i]);
        if j.is_object("java/lang/Object") && !acc.is_object("java/lang/Object")
            && !types[i].is_object(
            "java/lang/Object",
        ) {
            met = true;
        }
        acc = j;
        i += 1;
    }
    if met {
        Some(object("java/lang/Object"))
    } else {
        Some(acc)
    }
}

// ---------------------------------------------------------------------
// Evidence.

/// What a use of a variable says of its type.
pub enum Evidence {
    T(JType),
    /// It was given `this`.
    OfThis,
    /// It was given `0` or `1`.
    BoolCandidate,
}

/// Model of [`Evidence`].
pub ghost enum EvidenceV {
    T(JTypeV),
    OfThis,
    BoolCandidate,
}

impl Evidence {
    pub open spec fn view(&self) -> EvidenceV {
        match self {
            Evidence::T(t) => EvidenceV::T(t@),
            Evidence::OfThis => EvidenceV::OfThis,
            Evidence::BoolCandidate => EvidenceV::BoolCandidate,
        }
    }
}

/// Model of the evidence on one variable.
pub open spec fn evidence_list(v: Seq<Evidence>) -> Seq<EvidenceV> {
    Seq::new(v.len(), |i: int| v[i]@)
}

/// Evidence on each variable, by id.
pub struct EvidenceTable {
    pub rows: Vec<Vec<Evidence>>,
}

impl EvidenceTable {
    pub open spec fn view(&self) -> Seq<Seq<EvidenceV>> {
        Seq::new(self.rows@.len(), |i: int| evidence_list(self.rows@[i]@))
    }
}

/// The table with one more piece of evidence on `v`, where the table has `v`.
pub open spec fn with_evidence(
    ev: Seq<Seq<EvidenceV>>,
    v: u32,
    e: EvidenceV,
) -> Seq<Seq<EvidenceV>> {
    if v < ev.len() {
        ev.update(v as int, ev[v as int].push(e))
    } else {
        ev
    }
}

/// The table with the type `t` noted on `v`, unless it is `void`.
pub open spec fn with_type_evidence(ev: Seq<Seq<EvidenceV>>, v: u32, t: JTypeV) -> Seq<
    Seq<EvidenceV>,
> {
    if t is Void {
        ev
    } else {
        with_evidence(ev, v, EvidenceV::T(t))
    }
}

/// Values that say nothing of the type: `null` and lambdas.
pub open spec fn is_silent(e: ExprV) -> bool {
    e == ExprV::Const(ConstValV::Null) || e is Lambda
}

/// Evidence of a branch of a conditional.
pub open spec fn branch_evidence(ev: Seq<Seq<EvidenceV>>, v: u32, e: ExprV) -> Seq<Seq<EvidenceV>> {
    if is_silent(e) {
        ev
    } else {
        with_type_evidence(ev, v, erase(type_of(e)))
    }
}

/// Evidence of giving `v` the value `e`.
pub open spec fn value_evidence(ev: Seq<Seq<EvidenceV>>, v: u32, e: ExprV) -> Seq<Seq<EvidenceV>> {
    let ev1 = if e is This {
        with_evidence(ev, v, EvidenceV::OfThis)
    } else if is_silent(e) {
        ev
    } else {
        let typed = with_type_evidence(ev, v, erase(type_of(e)));
        match e {
            ExprV::Cond { t, f, .. } => branch_evidence(branch_evidence(typed, v, *t), v, *f),
            _ => typed,
        }
    };
    match e {
        ExprV::Const(ConstValV::Int(n)) => if n == 0 || n == 1 {
            with_evidence(ev1, v, EvidenceV::BoolCandidate)
        } else {
            ev1
        },
        _ => ev1,
    }
}

/// Notes a piece of evidence on `v`.
pub fn push_ev(ev: &mut EvidenceTable, v: u32, e: Evidence)
    ensures
        final(ev)@ == with_evidence(old(ev)@, v, e@),
{
    if (v as usize) < ev.rows.len() {
        let ghost row = ev.rows@[v as int]@;
        let ghost x = e@;
        ev.rows[v as usize].push(e);
        assert(evidence_list(ev.rows@[v as int]@) =~= evidence_list(row).push(x));
        assert(ev@ =~= with_evidence(old(ev)@, v, x));
    }
}

/// Notes a type on `v`.
fn push_type(ev: &mut EvidenceTable, v: u32, t: JType)
    ensures
        final(ev)@ == with_type_evidence(old(ev)@, v, t@),
{
    if !matches!(t, JType::Void) {
        push_ev(ev, v, Evidence::T(t));
    }
}

/// Whether `e` says nothing of the type.
fn silent(e: &Expr) -> (r: bool)
    ensures
        r == is_silent(e@),
{
    match e {
        Expr::Const(c) => matches!(c, ConstVal::Null),
        Expr::Lambda(_) => true,
        _ => false,
    }
}

/// Notes a branch of a conditional.
fn note_branch(e: &Expr, v: u32, ev: &mut EvidenceTable)
    ensures
        final(ev)@ == branch_evidence(old(ev)@, v, e@),
{
    if !silent(e) {
        push_type(ev, v, e.type_ref().erased());
    }
}

/// Notes that `v` was given the value `e`.
fn note_value(e: &Expr, v: u32, ev: &mut EvidenceTable)
    ensures
        final(ev)@ == value_evidence(old(ev)@, v, e@),
{
    if matches!(e, Expr::This) {
        push_ev(ev, v, Evidence::OfThis);
    } else if !silent(e) {
        push_type(ev, v, e.type_ref().erased());
        cond_branch_evidence(e, v, ev);
    }
    if let Expr::Const(ConstVal::Int(n)) = e {
        if *n == 0 || *n == 1 {
            push_ev(ev, v, Evidence::BoolCandidate);
        }
    }
}

/// Notes both branches of a conditional that `var` is given.
fn cond_branch_evidence(e: &Expr, var: u32, ev: &mut EvidenceTable)
    ensures
        final(ev)@ == match e@ {
            ExprV::Cond { t, f, .. } => branch_evidence(
                branch_evidence(old(ev)@, var, *t),
                var,
                *f,
            ),
            _ => old(ev)@,
        },
{
    if let Expr::Cond { t, f, .. } = e {
        note_branch(t, var, ev);
        note_branch(f, var, ev);
    }
}

/// Evidence of passing an argument of type `t`.
pub open spec fn arg_evidence(ev: Seq<Seq<EvidenceV>>, a: ExprV, t: JTypeV) -> Seq<Seq<EvidenceV>> {
    match as_local(a) {
        Some(v) => with_evidence(ev, v, EvidenceV::T(t)),
        None => ev,
    }
}

/// Evidence of the first `n` arguments of a call.
pub open spec fn args_evidence(
    args: Seq<ExprV>,
    types: Seq<JTypeV>,
    n: nat,
    ev: Seq<Seq<EvidenceV>>,
) -> Seq<Seq<EvidenceV>>
    decreases args, n,
{
    if n == 0 || n > args.len() || n > types.len() {
        ev
    } else {
        let before = args_evidence(args, types, (n - 1) as nat, ev);
        expr_evidence(args[n - 1], arg_evidence(before, args[n - 1], types[n - 1]))
    }
}

/// The smaller of two lengths.
pub open spec fn shorter(a: nat, b: nat) -> nat {
    if a <= b {
        a
    } else {
        b
    }
}

/// The table with what the assignments and calls in `e` say of variables.
pub open spec fn expr_evidence(e: ExprV, ev: Seq<Seq<EvidenceV>>) -> Seq<Seq<EvidenceV>>
    decreases e, 0nat,
{
    match e {
        ExprV::New { args, .. } => { expr_evidence_exprs(args, ev) },
        ExprV::Field { owner, .. } => { expr_evidence_opt(owner, ev) },
        ExprV::Method { desc, args, .. } => args_evidence(
            args,
            desc.args,
            shorter(args.len(), desc.args.len()),
            ev,
        ),
        ExprV::ArrayIndex { array, index } => {
            let ev1 = expr_evidence(*array, ev);
            expr_evidence(*index, ev1)
        },
        ExprV::Cast { e, .. } => { expr_evidence(*e, ev) },
        ExprV::InstanceOf { e, .. } => { expr_evidence(*e, ev) },
        ExprV::Un { e, .. } => { expr_evidence(*e, ev) },
        ExprV::Bin { l, r, .. } => { let ev1 = expr_evidence(*l, ev); expr_evidence(*r, ev1) },
        ExprV::Cond { c, t, f } => {
            let ev1 = expr_evidence(*c, ev);
            let ev2 = expr_evidence(*t, ev1);
            expr_evidence(*f, ev2)
        },
        ExprV::Assign { target, value, .. } => {
            let ev0 = match as_local(*target) {
                Some(v) => value_evidence(ev, v, *value),
                None => ev,
            };
            expr_evidence(*value, expr_evidence(*target, ev0))
        },
        ExprV::PreIncDec { e, .. } => { expr_evidence(*e, ev) },
        ExprV::PostIncDec { e, .. } => { expr_evidence(*e, ev) },
        ExprV::Lambda(l) => { expr_evidence_captures(*l, ev) },
        ExprV::StringConcat(parts) => { expr_evidence_parts(parts, ev) },
        ExprV::AnonNew { args, .. } => { expr_evidence_exprs(args, ev) },
        ExprV::NewArray { dims, init, .. } => {
            let ev1 = expr_evidence_exprs(dims, ev);
            expr_evidence_oexprs(init, ev1)
        },
        ExprV::NewMultiArray { dims, .. } => { expr_evidence_exprs(dims, ev) },
        ExprV::Invokedynamic { args, .. } => { expr_evidence_exprs(args, ev) },
        _ => ev,
    }
}

/// [`expr_evidence`] where there is a value.
pub open spec fn expr_evidence_oexprs(
    o: Option<Seq<ExprV>>,
    ev: Seq<Seq<EvidenceV>>,
) -> Seq<Seq<EvidenceV>>
    decreases o, 0nat,
{
    match o {
        Some(x) => expr_evidence_exprs(x, ev),
        None => ev,
    }
}

/// [`expr_evidence`] where there is a value.
pub open spec fn expr_evidence_opt(
    o: Option<Box<ExprV>>,
    ev: Seq<Seq<EvidenceV>>,
) -> Seq<Seq<EvidenceV>>
    decreases o, 0nat,
{
    match o {
        Some(x) => expr_evidence(*x, ev),
        None => ev,
    }
}

/// [`expr_evidence`] inside the captures of a lambda.
pub open spec fn expr_evidence_captures(
    l: LambdaExprV,
    ev: Seq<Seq<EvidenceV>>,
) -> Seq<Seq<EvidenceV>>
    decreases l, 0nat,
{
    expr_evidence_exprs(l.captures, ev)
}

/// [`expr_evidence`] over a list, in order.
pub open spec fn expr_evidence_exprs(l: Seq<ExprV>, ev: Seq<Seq<EvidenceV>>) -> Seq<Seq<EvidenceV>>
    decreases l, 0nat,
{
    if l.len() == 0 {
        ev
    } else {
        let ev1 = expr_evidence_exprs(l.drop_last(), ev);
        expr_evidence(l.last(), ev1)
    }
}

/// [`expr_evidence`] inside a concatenation piece.
pub open spec fn expr_evidence_part(p: ConcatPartV, ev: Seq<Seq<EvidenceV>>) -> Seq<Seq<EvidenceV>>
    decreases p, 0nat,
{
    match p {
        ConcatPartV::Str(e) => expr_evidence(e, ev),
        ConcatPartV::Const(_) => ev,
    }
}

/// [`expr_evidence`] over a list, in order.
pub open spec fn expr_evidence_parts(
    l: Seq<ConcatPartV>,
    ev: Seq<Seq<EvidenceV>>,
) -> Seq<Seq<EvidenceV>>
    decreases l, 0nat,
{
    if l.len() == 0 {
        ev
    } else {
        let ev1 = expr_evidence_parts(l.drop_last(), ev);
        expr_evidence_part(l.last(), ev1)
    }
}

/// [`expr_evidence`] where there is a value.
pub open spec fn expr_evidence_oexpr(
    o: Option<ExprV>,
    ev: Seq<Seq<EvidenceV>>,
) -> Seq<Seq<EvidenceV>>
    decreases o, 0nat,
{
    match o {
        Some(x) => expr_evidence(x, ev),
        None => ev,
    }
}

/// Notes what the assignments and calls in `e` say of variables.
pub fn gather_expr(e: &Expr, ev: &mut EvidenceTable)
    ensures
        final(ev)@ == expr_evidence(e@, old(ev)@),
    decreases e, 0nat,
{
    match e {
        Expr::New { args, .. } => { gather_expr_exprs(args, ev); },
        Expr::Field { owner, .. } => { gather_expr_opt(owner, ev); },
        Expr::Method { desc, args, .. } => gather_args(args, &desc.args, ev),
        Expr::ArrayIndex { array, index } => { gather_expr(array, ev); gather_expr(index, ev); },
        Expr::Cast { e, .. } => { gather_expr(e, ev); },
        Expr::InstanceOf { e, .. } => { gather_expr(e, ev); },
        Expr::Un { e, .. } => { gather_expr(e, ev); },
        Expr::Bin { l, r, .. } => { gather_expr(l, ev); gather_expr(r, ev); },
        Expr::Cond { c, t, f } => { gather_expr(c, ev); gather_expr(t, ev); gather_expr(f, ev); },
        Expr::Assign { target, value, .. } => {
            if let Some(var) = local_var(target) { note_value(value, var, ev); }
            gather_expr(target, ev);
            gather_expr(value, ev);
        },
        Expr::PreIncDec { e, .. } => { gather_expr(e, ev); },
        Expr::PostIncDec { e, .. } => { gather_expr(e, ev); },
        Expr::Lambda(l) => { gather_expr_captures(l, ev); },
        Expr::StringConcat(parts) => { gather_expr_parts(parts, ev); },
        Expr::AnonNew { args, .. } => { gather_expr_exprs(args, ev); },
        Expr::NewArray { dims, init, .. } => {
            gather_expr_exprs(dims, ev);
            gather_expr_oexprs(init, ev);
        },
        Expr::NewMultiArray { dims, .. } => { gather_expr_exprs(dims, ev); },
        Expr::Invokedynamic { args, .. } => { gather_expr_exprs(args, ev); },
        _ => {},
    }
}

/// `gather_expr` where there is a value.
pub fn gather_expr_oexprs(o: &Option<Vec<Expr>>, ev: &mut EvidenceTable)
    ensures
        final(ev)@ == expr_evidence_oexprs(opt_exprs(*o), old(ev)@),
    decreases o, 0nat,
{
    if let Some(x) = o {
        gather_expr_exprs(x, ev);
    }
}

/// `gather_expr` where there is a value.
pub fn gather_expr_opt(o: &Option<Box<Expr>>, ev: &mut EvidenceTable)
    ensures
        final(ev)@ == expr_evidence_opt(opt_box(*o), old(ev)@),
    decreases o, 0nat,
{
    if let Some(x) = o {
        gather_expr(x, ev);
    }
}

/// `gather_expr` inside the captures of a lambda.
pub fn gather_expr_captures(l: &LambdaExpr, ev: &mut EvidenceTable)
    ensures
        final(ev)@ == expr_evidence_captures(l@, old(ev)@),
    decreases l, 0nat,
{
    gather_expr_exprs(&l.captures, ev);
}

/// `gather_expr` over a list, in order.
#[verifier::loop_isolation(false)]
pub fn gather_expr_exprs(l: &Vec<Expr>, ev: &mut EvidenceTable)
    ensures
        final(ev)@ == expr_evidence_exprs(exprs(l@), old(ev)@),
    decreases l, 0nat,
{
    let ghost all = exprs(l@);
    let mut i: usize = 0;
    while i < l.len()
        invariant
            i <= l.len(),
            ev@ == expr_evidence_exprs(all.take(i as int), old(ev)@),
        decreases l.len() - i,
    {
        assert(decreases_to!(l => l@[i as int]));
        assert(all.take(i + 1).drop_last() =~= all.take(i as int));
        gather_expr(&l[i], ev);
        i += 1;
    }
    assert(all.take(i as int) =~= all);
}

/// `gather_expr` inside a concatenation piece.
pub fn gather_expr_part(p: &ConcatPart, ev: &mut EvidenceTable)
    ensures
        final(ev)@ == expr_evidence_part(p@, old(ev)@),
    decreases p, 0nat,
{
    match p {
        ConcatPart::Str(e) => gather_expr(e, ev),
        ConcatPart::Const(_) => {},
    }
}

/// `gather_expr` over a list, in order.
#[verifier::loop_isolation(false)]
pub fn gather_expr_parts(l: &Vec<ConcatPart>, ev: &mut EvidenceTable)
    ensures
        final(ev)@ == expr_evidence_parts(concat_parts(l@), old(ev)@),
    decreases l, 0nat,
{
    let ghost all = concat_parts(l@);
    let mut i: usize = 0;
    while i < l.len()
        invariant
            i <= l.len(),
            ev@ == expr_evidence_parts(all.take(i as int), old(ev)@),
        decreases l.len() - i,
    {
        assert(decreases_to!(l => l@[i as int]));
        assert(all.take(i + 1).drop_last() =~= all.take(i as int));
        gather_expr_part(&l[i], ev);
        i += 1;
    }
    assert(all.take(i as int) =~= all);
}

/// `gather_expr` where there is a value.
pub fn gather_expr_oexpr(o: &Option<Expr>, ev: &mut EvidenceTable)
    ensures
        final(ev)@ == expr_evidence_oexpr(opt_expr(*o), old(ev)@),
    decreases o, 0nat,
{
    if let Some(x) = o {
        gather_expr(x, ev);
    }
}

/// Notes what the arguments of a call say.
#[verifier::loop_isolation(false)]
fn gather_args(args: &Vec<Expr>, types: &Vec<JType>, ev: &mut EvidenceTable)
    ensures
        final(ev)@ == args_evidence(
            exprs(args@),
            java_types(types@),
            shorter(exprs(args@).len(), java_types(types@).len()),
            old(ev)@,
        ),
    decreases args, 0nat,
{
    let ghost es = exprs(args@);
    let ghost ts = java_types(types@);
    let mut i: usize = 0;
    while i < args.len() && i < types.len()
        invariant
            i <= args.len(),
            i <= types.len(),
            ev@ == args_evidence(es, ts, i as nat, old(ev)@),
        decreases args.len() - i,
    {
        assert(decreases_to!(args => args@[i as int]));
        assert(es[i as int] == args@[i as int]@);
        assert(ts[i as int] == types@[i as int]@);
        if let Some(v) = local_var(&args[i]) {
            push_ev(ev, v, Evidence::T(types[i].clone()));
        }
        gather_expr(&args[i], ev);
        i += 1;
    }
}

/// Evidence of returning `e` from a method that returns `t`.
pub open spec fn return_evidence(e: Option<ExprV>, t: JTypeV, ev: Seq<Seq<EvidenceV>>) -> Seq<
    Seq<EvidenceV>,
> {
    match e {
        Some(x) => arg_evidence(expr_evidence(x, ev), x, t),
        None => ev,
    }
}

/// The table with what `s` says of variables.
pub open spec fn stmt_evidence(
    s: StmtV,
    ret_ty: JTypeV,
    ev: Seq<Seq<EvidenceV>>,
) -> Seq<Seq<EvidenceV>>
    decreases s,
{
    match s {
        StmtV::Block(items) => { stmt_evidence_seq(items, ret_ty, ev) },
        StmtV::ExprStmt(e) => { expr_evidence(e, ev) },
        StmtV::LocalDef { var, init, .. } => match init {
            Some(e) => expr_evidence(e, value_evidence(ev, var, e)),
            None => ev,
        },
        StmtV::Return(e) => return_evidence(e, ret_ty, ev),
        StmtV::Throw(e) => arg_evidence(expr_evidence(e, ev), e, throwable_class()),
        StmtV::If { cond, then_stmt, else_stmt } => {
            let ev1 = expr_evidence(cond, ev);
            let ev2 = stmt_evidence(*then_stmt, ret_ty, ev1);
            stmt_evidence_opt(else_stmt, ret_ty, ev2)
        },
        StmtV::While { cond, body } => {
            let ev1 = expr_evidence(cond, ev);
            stmt_evidence(*body, ret_ty, ev1)
        },
        StmtV::DoWhile { body, cond } => {
            let ev1 = expr_evidence(cond, ev);
            stmt_evidence(*body, ret_ty, ev1)
        },
        StmtV::For { init, cond, update, body } => {
            let ev1 = stmt_evidence_seq(init, ret_ty, ev);
            let ev2 = expr_evidence_oexpr(cond, ev1);
            let ev3 = expr_evidence_exprs(update, ev2);
            stmt_evidence(*body, ret_ty, ev3)
        },
        StmtV::ForEach { iterable, body, .. } => {
            let ev1 = expr_evidence(iterable, ev);
            stmt_evidence(*body, ret_ty, ev1)
        },
        StmtV::Switch { selector, cases, default, .. } => {
            let ev1 = expr_evidence(selector, ev);
            let ev2 = stmt_evidence_cases(cases, ret_ty, ev1);
            stmt_evidence_opt(default, ret_ty, ev2)
        },
        StmtV::Try { body, catches, finally } => {
            let ev1 = stmt_evidence(*body, ret_ty, ev);
            let ev2 = stmt_evidence_catches(catches, ret_ty, ev1);
            stmt_evidence_opt(finally, ret_ty, ev2)
        },
        StmtV::TryWithResources { resources, body, catches, finally } => {
            let ev1 = stmt_evidence_seq(resources, ret_ty, ev);
            let ev2 = stmt_evidence(*body, ret_ty, ev1);
            let ev3 = stmt_evidence_catches(catches, ret_ty, ev2);
            stmt_evidence_opt(finally, ret_ty, ev3)
        },
        StmtV::Synchronized { lock, body } => {
            let ev1 = expr_evidence(lock, ev);
            stmt_evidence(*body, ret_ty, ev1)
        },
        StmtV::Label(_) => { ev },
        StmtV::Goto(_) => { ev },
        StmtV::ClassDecl { .. } => { ev },
        StmtV::Break(_) => { ev },
        StmtV::Continue(_) => { ev },
        StmtV::Comment(_) => { ev },
        StmtV::Labeled { body, .. } => { stmt_evidence(*body, ret_ty, ev) },
        StmtV::Assert { cond, msg } => {
            let ev1 = expr_evidence(cond, ev);
            expr_evidence_oexpr(msg, ev1)
        },
        StmtV::TernaryValue { e } => { expr_evidence(e, ev) },
        StmtV::MonitorEnter(e) => { expr_evidence(e, ev) },
        StmtV::MonitorExit(e) => { expr_evidence(e, ev) },
        _ => ev,
    }
}

/// [`stmt_evidence`] where there is a value.
pub open spec fn stmt_evidence_opt(
    o: Option<Box<StmtV>>,
    ret_ty: JTypeV,
    ev: Seq<Seq<EvidenceV>>,
) -> Seq<Seq<EvidenceV>>
    decreases o,
{
    match o {
        Some(x) => stmt_evidence(*x, ret_ty, ev),
        None => ev,
    }
}

/// [`stmt_evidence`] over a list, in order.
pub open spec fn stmt_evidence_seq(
    l: Seq<StmtV>,
    ret_ty: JTypeV,
    ev: Seq<Seq<EvidenceV>>,
) -> Seq<Seq<EvidenceV>>
    decreases l,
{
    if l.len() == 0 {
        ev
    } else {
        let ev1 = stmt_evidence_seq(l.drop_last(), ret_ty, ev);
        stmt_evidence(l.last(), ret_ty, ev1)
    }
}

/// [`stmt_evidence`] inside a switch arm.
pub open spec fn stmt_evidence_case(
    c: CaseGroupV,
    ret_ty: JTypeV,
    ev: Seq<Seq<EvidenceV>>,
) -> Seq<Seq<EvidenceV>>
    decreases c,
{
    let ev1 = expr_evidence_oexpr(c.guard, ev);
    stmt_evidence_seq(c.body, ret_ty, ev1)
}

/// [`stmt_evidence`] over a list, in order.
pub open spec fn stmt_evidence_cases(
    l: Seq<CaseGroupV>,
    ret_ty: JTypeV,
    ev: Seq<Seq<EvidenceV>>,
) -> Seq<Seq<EvidenceV>>
    decreases l,
{
    if l.len() == 0 {
        ev
    } else {
        let ev1 = stmt_evidence_cases(l.drop_last(), ret_ty, ev);
        stmt_evidence_case(l.last(), ret_ty, ev1)
    }
}

/// [`stmt_evidence`] inside a catch clause.
pub open spec fn stmt_evidence_catch(
    c: CatchV,
    ret_ty: JTypeV,
    ev: Seq<Seq<EvidenceV>>,
) -> Seq<Seq<EvidenceV>>
    decreases c,
{
    stmt_evidence(*c.body, ret_ty, ev)
}

/// [`stmt_evidence`] over a list, in order.
pub open spec fn stmt_evidence_catches(
    l: Seq<CatchV>,
    ret_ty: JTypeV,
    ev: Seq<Seq<EvidenceV>>,
) -> Seq<Seq<EvidenceV>>
    decreases l,
{
    if l.len() == 0 {
        ev
    } else {
        let ev1 = stmt_evidence_catches(l.drop_last(), ret_ty, ev);
        stmt_evidence_catch(l.last(), ret_ty, ev1)
    }
}

/// Notes what `s` says of variables; `ret_ty` is the method's return type.
pub fn gather_evidence(s: &Stmt, ret_ty: &JType, ev: &mut EvidenceTable)
    ensures
        final(ev)@ == stmt_evidence(s@, ret_ty@, old(ev)@),
    decreases s,
{
    match s {
        Stmt::Block(items) => { gather_evidence_vec(items, ret_ty, ev); },
        Stmt::ExprStmt(e) => { gather_expr(e, ev); },
        Stmt::LocalDef { var, init, .. } => {
            if let Some(e) = init { note_value(e, *var, ev); gather_expr(e, ev); }
        },
        Stmt::Return(e) => {
            if let Some(x) = e {
                gather_expr(x, ev);
                if let Some(v) = local_var(x) { push_ev(ev, v, Evidence::T(ret_ty.clone())); }
            }
        },
        Stmt::Throw(e) => {
            gather_expr(e, ev);
            if let Some(v) = local_var(e) {
                push_ev(ev, v, Evidence::T(object("java/lang/Throwable")));
            }
        },
        Stmt::If { cond, then_stmt, else_stmt } => {
            gather_expr(cond, ev);
            gather_evidence(then_stmt, ret_ty, ev);
            gather_evidence_opt(else_stmt, ret_ty, ev);
        },
        Stmt::While { cond, body } => { gather_expr(cond, ev); gather_evidence(body, ret_ty, ev); },
        Stmt::DoWhile { body, cond } => {
            gather_expr(cond, ev);
            gather_evidence(body, ret_ty, ev);
        },
        Stmt::For { init, cond, update, body } => {
            gather_evidence_vec(init, ret_ty, ev);
            gather_expr_oexpr(cond, ev);
            gather_expr_exprs(update, ev);
            gather_evidence(body, ret_ty, ev);
        },
        Stmt::ForEach { iterable, body, .. } => {
            gather_expr(iterable, ev);
            gather_evidence(body, ret_ty, ev);
        },
        Stmt::Switch { selector, cases, default, .. } => {
            gather_expr(selector, ev);
            gather_evidence_cases(cases, ret_ty, ev);
            gather_evidence_opt(default, ret_ty, ev);
        },
        Stmt::Try { body, catches, finally } => {
            gather_evidence(body, ret_ty, ev);
            gather_evidence_catches(catches, ret_ty, ev);
            gather_evidence_opt(finally, ret_ty, ev);
        },
        Stmt::TryWithResources { resources, body, catches, finally } => {
            gather_evidence_vec(resources, ret_ty, ev);
            gather_evidence(body, ret_ty, ev);
            gather_evidence_catches(catches, ret_ty, ev);
            gather_evidence_opt(finally, ret_ty, ev);
        },
        Stmt::Synchronized { lock, body } => {
            gather_expr(lock, ev);
            gather_evidence(body, ret_ty, ev);
        },
        Stmt::Label(_) => {  },
        Stmt::Goto(_) => {  },
        Stmt::ClassDecl { .. } => {  },
        Stmt::Break(_) => {  },
        Stmt::Continue(_) => {  },
        Stmt::Comment(_) => {  },
        Stmt::Labeled { body, .. } => { gather_evidence(body, ret_ty, ev); },
        Stmt::Assert { cond, msg } => { gather_expr(cond, ev); gather_expr_oexpr(msg, ev); },
        Stmt::TernaryValue { e } => { gather_expr(e, ev); },
        Stmt::MonitorEnter(e) => { gather_expr(e, ev); },
        Stmt::MonitorExit(e) => { gather_expr(e, ev); },
        _ => {},
    }
}

/// `gather_evidence` where there is a value.
pub fn gather_evidence_opt(o: &Option<Box<Stmt>>, ret_ty: &JType, ev: &mut EvidenceTable)
    ensures
        final(ev)@ == stmt_evidence_opt(opt_stmt(*o), ret_ty@, old(ev)@),
    decreases o,
{
    if let Some(x) = o {
        gather_evidence(x, ret_ty, ev);
    }
}

/// `gather_evidence` over a list, in order.
#[verifier::loop_isolation(false)]
pub fn gather_evidence_vec(l: &Vec<Stmt>, ret_ty: &JType, ev: &mut EvidenceTable)
    ensures
        final(ev)@ == stmt_evidence_seq(stmts(l@), ret_ty@, old(ev)@),
    decreases l,
{
    let ghost all = stmts(l@);
    let mut i: usize = 0;
    while i < l.len()
        invariant
            i <= l.len(),
            ev@ == stmt_evidence_seq(all.take(i as int), ret_ty@, old(ev)@),
        decreases l.len() - i,
    {
        assert(decreases_to!(l => l@[i as int]));
        assert(all.take(i + 1).drop_last() =~= all.take(i as int));
        gather_evidence(&l[i], ret_ty, ev);
        i += 1;
    }
    assert(all.take(i as int) =~= all);
}

/// `gather_evidence` inside a switch arm.
pub fn gather_evidence_case(c: &CaseGroup, ret_ty: &JType, ev: &mut EvidenceTable)
    ensures
        final(ev)@ == stmt_evidence_case(c@, ret_ty@, old(ev)@),
    decreases c,
{
    gather_expr_oexpr(&c.guard, ev);
    gather_evidence_vec(&c.body, ret_ty, ev);
}

/// `gather_evidence` over a list, in order.
#[verifier::loop_isolation(false)]
pub fn gather_evidence_cases(l: &Vec<CaseGroup>, ret_ty: &JType, ev: &mut EvidenceTable)
    ensures
        final(ev)@ == stmt_evidence_cases(case_groups(l@), ret_ty@, old(ev)@),
    decreases l,
{
    let ghost all = case_groups(l@);
    let mut i: usize = 0;
    while i < l.len()
        invariant
            i <= l.len(),
            ev@ == stmt_evidence_cases(all.take(i as int), ret_ty@, old(ev)@),
        decreases l.len() - i,
    {
        assert(decreases_to!(l => l@[i as int]));
        assert(all.take(i + 1).drop_last() =~= all.take(i as int));
        gather_evidence_case(&l[i], ret_ty, ev);
        i += 1;
    }
    assert(all.take(i as int) =~= all);
}

/// `gather_evidence` inside a catch clause.
pub fn gather_evidence_catch(c: &Catch, ret_ty: &JType, ev: &mut EvidenceTable)
    ensures
        final(ev)@ == stmt_evidence_catch(c@, ret_ty@, old(ev)@),
    decreases c,
{
    gather_evidence(&c.body, ret_ty, ev);
}

/// `gather_evidence` over a list, in order.
#[verifier::loop_isolation(false)]
pub fn gather_evidence_catches(l: &Vec<Catch>, ret_ty: &JType, ev: &mut EvidenceTable)
    ensures
        final(ev)@ == stmt_evidence_catches(catch_list(l@), ret_ty@, old(ev)@),
    decreases l,
{
    let ghost all = catch_list(l@);
    let mut i: usize = 0;
    while i < l.len()
        invariant
            i <= l.len(),
            ev@ == stmt_evidence_catches(all.take(i as int), ret_ty@, old(ev)@),
        decreases l.len() - i,
    {
        assert(decreases_to!(l => l@[i as int]));
        assert(all.take(i + 1).drop_last() =~= all.take(i as int));
        gather_evidence_catch(&l[i], ret_ty, ev);
        i += 1;
    }
    assert(all.take(i as int) =~= all);
}

/// A condition that tests `v` as a truth value: `v == 0`, `v != 1`, `!v` and the
/// like.
pub open spec fn tests_bool(c: ExprV, v: u32) -> bool {
    match c {
        ExprV::Bin { op, l, r, .. } => (op is Eq || op is Ne) && as_local(*l) == Some(v) && (*r
            == ExprV::Const(ConstValV::Int(0)) || *r == ExprV::Const(ConstValV::Int(1))),
        ExprV::Un { op, e } => op is Not && as_local(*e) == Some(v),
        _ => false,
    }
}

/// [`tests_bool`] where there is a condition.
pub open spec fn tests_bool_oexpr(c: Option<ExprV>, v: u32) -> bool {
    c matches Some(e) && tests_bool(e, v)
}

/// Adds the variable that a condition tests as a truth value to `out`.
pub fn mark_bool_cond(c: &Expr, out: &mut HashSet<u32>)
    ensures
        forall|v: u32| #[trigger]
            final(out)@.contains(v) <==> old(out)@.contains(v) || tests_bool(c@, v),
{
    proof {
        reveal_with_fuel(Expr::view, 2);
    }
    match c {
        Expr::Bin { op, l, r, .. } => {
            if matches!(op, BinOp::Eq | BinOp::Ne) {
                if let (Some(v), Expr::Const(ConstVal::Int(n))) = (local_var(l), &**r) {
                    if *n == 0 || *n == 1 {
                        out.insert(v);
                    }
                }
            }
        },
        Expr::Un { op: UnOp::Not, e } => {
            if let Some(v) = local_var(e) {
                out.insert(v);
            }
        },
        _ => {},
    }
}

/// `mark_bool_cond` where there is a condition.
pub fn mark_bool_cond_oexpr(c: &Option<Expr>, out: &mut HashSet<u32>)
    ensures
        forall|v: u32| #[trigger]
            final(out)@.contains(v) <==> old(out)@.contains(v) || tests_bool_oexpr(opt_expr(*c), v),
{
    if let Some(e) = c {
        mark_bool_cond(e, out);
    }
}

/// A condition of an `if` or loop in `s` tests `v` as a truth value.
pub open spec fn tested_bool(s: StmtV, v: u32) -> bool
    decreases s,
{
    match s {
        StmtV::Block(items) => tested_bool_seq(items, v),
        StmtV::If { cond, then_stmt, else_stmt } => tests_bool(cond, v)
            || tested_bool(*then_stmt, v) || tested_bool_opt(else_stmt, v),
        StmtV::While { cond, body } => tests_bool(cond, v) || tested_bool(*body, v),
        StmtV::DoWhile { body, cond } => tests_bool(cond, v) || tested_bool(*body, v),
        StmtV::For { init, cond, body, .. } => tested_bool_seq(init, v)
            || tests_bool_oexpr(cond, v) || tested_bool(*body, v),
        StmtV::ForEach { body, .. } => tested_bool(*body, v),
        StmtV::Switch { cases, default, .. } => tested_bool_cases(cases, v)
            || tested_bool_opt(default, v),
        StmtV::Try { body, catches, finally } => tested_bool(*body, v)
            || tested_bool_catches(catches, v) || tested_bool_opt(finally, v),
        StmtV::TryWithResources { resources, body, catches, finally } => tested_bool_seq(
            resources,
            v,
        )
            || tested_bool(*body, v) || tested_bool_catches(catches, v)
            || tested_bool_opt(finally, v),
        StmtV::Synchronized { body, .. } => tested_bool(*body, v),
        StmtV::Labeled { body, .. } => tested_bool(*body, v),
        _ => false,
    }
}

/// [`tested_bool`] where there is a value.
pub open spec fn tested_bool_opt(o: Option<Box<StmtV>>, v: u32) -> bool
    decreases o,
{
    match o {
        Some(x) => tested_bool(*x, v),
        None => false,
    }
}

/// [`tested_bool`] over a list.
pub open spec fn tested_bool_seq(l: Seq<StmtV>, v: u32) -> bool
    decreases l,
{
    exists|i: int| 0 <= i < l.len() && tested_bool(#[trigger] l[i], v)
}

/// [`tested_bool`] inside a switch arm.
pub open spec fn tested_bool_case(c: CaseGroupV, v: u32) -> bool
    decreases c,
{
    tested_bool_seq(c.body, v)
}

/// [`tested_bool`] over a list.
pub open spec fn tested_bool_cases(l: Seq<CaseGroupV>, v: u32) -> bool
    decreases l,
{
    exists|i: int| 0 <= i < l.len() && tested_bool_case(#[trigger] l[i], v)
}

/// [`tested_bool`] inside a catch clause.
pub open spec fn tested_bool_catch(c: CatchV, v: u32) -> bool
    decreases c,
{
    tested_bool(*c.body, v)
}

/// [`tested_bool`] over a list.
pub open spec fn tested_bool_catches(l: Seq<CatchV>, v: u32) -> bool
    decreases l,
{
    exists|i: int| 0 <= i < l.len() && tested_bool_catch(#[trigger] l[i], v)
}

/// Adds the variables that conditions in `s` test as truth values to `out`.
pub fn mark_bools(s: &Stmt, out: &mut HashSet<u32>)
    ensures
        forall|v: u32|
            #[trigger] final(out)@.contains(v) <==> old(out)@.contains(v) || tested_bool(s@, v),
    decreases s,
{
    match s {
        Stmt::Block(items) => { mark_bools_vec(items, out); },
        Stmt::If { cond, then_stmt, else_stmt } => {
            mark_bool_cond(cond, out);
            mark_bools(then_stmt, out);
            mark_bools_opt(else_stmt, out);
        },
        Stmt::While { cond, body } => { mark_bool_cond(cond, out); mark_bools(body, out); },
        Stmt::DoWhile { body, cond } => { mark_bool_cond(cond, out); mark_bools(body, out); },
        Stmt::For { init, cond, body, .. } => {
            mark_bools_vec(init, out);
            mark_bool_cond_oexpr(cond, out);
            mark_bools(body, out);
        },
        Stmt::ForEach { body, .. } => { mark_bools(body, out); },
        Stmt::Switch { cases, default, .. } => {
            mark_bools_cases(cases, out);
            mark_bools_opt(default, out);
        },
        Stmt::Try { body, catches, finally } => {
            mark_bools(body, out);
            mark_bools_catches(catches, out);
            mark_bools_opt(finally, out);
        },
        Stmt::TryWithResources { resources, body, catches, finally } => {
            mark_bools_vec(resources, out);
            mark_bools(body, out);
            mark_bools_catches(catches, out);
            mark_bools_opt(finally, out);
        },
        Stmt::Synchronized { body, .. } => { mark_bools(body, out); },
        Stmt::Labeled { body, .. } => { mark_bools(body, out); },
        _ => {},
    }
}

/// `mark_bools` where there is a value.
pub fn mark_bools_opt(o: &Option<Box<Stmt>>, out: &mut HashSet<u32>)
    ensures
        forall|v: u32|
            #[trigger] final(out)@.contains(v)
                <==> old(out)@.contains(v) || tested_bool_opt(opt_stmt(*o), v),
    decreases o,
{
    if let Some(x) = o {
        mark_bools(x, out);
    }
}

/// `mark_bools` over a list.
#[verifier::loop_isolation(false)]
pub fn mark_bools_vec(l: &Vec<Stmt>, out: &mut HashSet<u32>)
    ensures
        forall|v: u32|
            #[trigger] final(out)@.contains(v)
                <==> old(out)@.contains(v) || tested_bool_seq(stmts(l@), v),
    decreases l,
{
    let mut i: usize = 0;
    while i < l.len()
        invariant
            i <= l.len(),
            forall|v: u32| #[trigger] out@.contains(v) <==> old(out)@.contains(v) || exists|j: int|
                0 <= j < i && tested_bool(#[trigger] stmts(l@)[j], v),
        decreases l.len() - i,
    {
        assert(decreases_to!(l => l@[i as int]));
        assert(stmts(l@)[i as int] == l@[i as int]@);
        mark_bools(&l[i], out);
        i += 1;
    }
}

/// `mark_bools` inside a switch arm.
pub fn mark_bools_case(c: &CaseGroup, out: &mut HashSet<u32>)
    ensures
        forall|v: u32|
            #[trigger] final(out)@.contains(v)
                <==> old(out)@.contains(v) || tested_bool_case(c@, v),
    decreases c,
{
    mark_bools_vec(&c.body, out);
}

/// `mark_bools` over a list.
#[verifier::loop_isolation(false)]
pub fn mark_bools_cases(l: &Vec<CaseGroup>, out: &mut HashSet<u32>)
    ensures
        forall|v: u32|
            #[trigger] final(out)@.contains(v)
                <==> old(out)@.contains(v) || tested_bool_cases(case_groups(l@), v),
    decreases l,
{
    let mut i: usize = 0;
    while i < l.len()
        invariant
            i <= l.len(),
            forall|v: u32| #[trigger] out@.contains(v) <==> old(out)@.contains(v) || exists|j: int|
                0 <= j < i && tested_bool_case(#[trigger] case_groups(l@)[j], v),
        decreases l.len() - i,
    {
        assert(decreases_to!(l => l@[i as int]));
        assert(case_groups(l@)[i as int] == l@[i as int]@);
        mark_bools_case(&l[i], out);
        i += 1;
    }
}

/// `mark_bools` inside a catch clause.
pub fn mark_bools_catch(c: &Catch, out: &mut HashSet<u32>)
    ensures
        forall|v: u32|
            #[trigger] final(out)@.contains(v)
                <==> old(out)@.contains(v) || tested_bool_catch(c@, v),
    decreases c,
{
    mark_bools(&c.body, out);
}

/// `mark_bools` over a list.
#[verifier::loop_isolation(false)]
pub fn mark_bools_catches(l: &Vec<Catch>, out: &mut HashSet<u32>)
    ensures
        forall|v: u32|
            #[trigger] final(out)@.contains(v)
                <==> old(out)@.contains(v) || tested_bool_catches(catch_list(l@), v),
    decreases l,
{
    let mut i: usize = 0;
    while i < l.len()
        invariant
            i <= l.len(),
            forall|v: u32| #[trigger] out@.contains(v) <==> old(out)@.contains(v) || exists|j: int|
                0 <= j < i && tested_bool_catch(#[trigger] catch_list(l@)[j], v),
        decreases l.len() - i,
    {
        assert(decreases_to!(l => l@[i as int]));
        assert(catch_list(l@)[i as int] == l@[i as int]@);
        mark_bools_catch(&l[i], out);
        i += 1;
    }
}

// ---------------------------------------------------------------------
// Inference.

/// The types among pieces of evidence; with `own`, `this` counts as that class.
pub open spec fn typed_evidence(ev: Seq<EvidenceV>, own: Option<JTypeV>) -> Seq<JTypeV>
    decreases ev.len(),
{
    if ev.len() == 0 {
        seq![]
    } else {
        typed_evidence(ev.drop_last(), own) + match (ev.last(), own) {
            (EvidenceV::T(t), _) => seq![t],
            (EvidenceV::OfThis, Some(t)) => seq![t],
            _ => seq![],
        }
    }
}

/// `t` is among `types`.
pub open spec fn has_type(types: Seq<JTypeV>, t: JTypeV) -> bool {
    exists|i: int| 0 <= i < types.len() && #[trigger] types[i] == t
}

/// All of `types` are `int`, or `boolean` where that is allowed.
pub open spec fn all_int(types: Seq<JTypeV>, or_bool: bool) -> bool {
    forall|i: int|
        0 <= i < types.len() ==> #[trigger] types[i] is Int || (or_bool && types[i] is Boolean)
}

/// The type that evidence gives a variable; `tested` where a condition tests it.
pub open spec fn inferred(ev: Seq<EvidenceV>, tested: bool) -> Option<JTypeV> {
    let types = typed_evidence(ev, None);
    if types.len() > 0 && ((tested && all_int(types, false)) || (has_type(types, JTypeV::Boolean)
        && all_int(types, true))) {
        Some(JTypeV::Boolean)
    } else {
        combined(types)
    }
}

/// All of `types` are equal.
pub open spec fn uniform(types: Seq<JTypeV>) -> bool {
    forall|i: int| 1 <= i < types.len() ==> #[trigger] types[i] == types[0]
}

/// All of `types` are arrays.
pub open spec fn all_arrays(types: Seq<JTypeV>) -> bool {
    forall|i: int| 0 <= i < types.len() ==> #[trigger] types[i] is Array
}

/// The evidence on a merge variable of unrelated types is good enough to narrow
/// it: uniform and never plain `Object`, or arrays where an array is returned.
pub open spec fn is_concrete(types: Seq<JTypeV>, ret_ty: JTypeV) -> bool {
    &&& types.len() > 0
    &&& !has_type(types, object_type())
    &&& uniform(types) || (ret_ty is Array && all_arrays(types))
}

/// The type of variable `v` after inference from `ev`.
pub open spec fn inferred_type(
    vt: VarTableV,
    v: int,
    ev: Seq<EvidenceV>,
    tested: bool,
    ret_ty: JTypeV,
    pc: PoolClassV,
) -> TypeRefV {
    let info = vt.vars[v];
    let old_ty = erase(info.ty);
    let id = v as u32;
    let wide = vt.wide_stack_vars.contains(id);
    if !info.synthetic_name || info.is_param {
        info.ty
    } else {
        match inferred(ev, tested) {
            None => info.ty,
            Some(t) => if t is Int && !(old_ty is Int) {
                info.ty
            } else if wide && !is_concrete(
                typed_evidence(ev, Some(JTypeV::Object(pc.internal_name))),
                ret_ty,
            ) {
                info.ty
            } else if !vt.stack_vars.contains(id) || (t is Boolean && old_ty is Int) || wide {
                TypeRefV::J(t)
            } else {
                TypeRefV::J(joined(old_ty, t))
            },
        }
    }
}

/// The types among pieces of evidence.
fn evidence_types(ev: &Vec<Evidence>, own: &Option<JType>) -> (r: Vec<JType>)
    ensures
        java_types(r@) == typed_evidence(
            evidence_list(ev@),
            match own {
                Some(t) => Some(t@),
                None => None,
            },
        ),
{
    let ghost all = evidence_list(ev@);
    let ghost o = match own {
        Some(t) => Some(t@),
        None => None,
    };
    let mut r: Vec<JType> = Vec::new();
    assert(java_types(r@) =~= typed_evidence(all.take(0), o));
    let mut i: usize = 0;
    while i < ev.len()
        invariant
            i <= ev.len(),
            all == evidence_list(ev@),
            o == match own {
                Some(t) => Some(t@),
                None => None,
            },
            java_types(r@) == typed_evidence(all.take(i as int), o),
        decreases ev.len() - i,
    {
        let ghost before = java_types(r@);
        assert(all.take(i + 1).drop_last() =~= all.take(i as int));
        assert(all.take(i + 1).last() == ev@[i as int]@);
        match &ev[i] {
            Evidence::T(t) => {
                r.push(t.clone());
                assert(java_types(r@) =~= before.push(t@));
            },
            Evidence::OfThis => {
                if let Some(t) = own {
                    r.push(t.clone());
                    assert(java_types(r@) =~= before.push(t@));
                }
            },
            Evidence::BoolCandidate => {},
        }
        i += 1;
        assert(java_types(r@) =~= typed_evidence(all.take(i as int), o));
    }
    assert(all.take(i as int) =~= all);
    r
}

/// Whether `t` is among `types`.
fn any_type(types: &Vec<JType>, t: &JType) -> (r: bool)
    ensures
        r == has_type(java_types(types@), t@),
{
    let mut i: usize = 0;
    while i < types.len()
        invariant
            i <= types.len(),
            forall|j: int| 0 <= j < i ==> #[trigger] java_types(types@)[j] != t@,
        decreases types.len() - i,
    {
        assert(java_types(types@)[i as int] == types@[i as int]@);
        if types[i].same(t) {
            return true;
        }
        i += 1;
    }
    false
}

/// Whether all of `types` are `int`, or `boolean` where that is allowed.
fn all_ints(types: &Vec<JType>, or_bool: bool) -> (r: bool)
    ensures
        r == all_int(java_types(types@), or_bool),
{
    let mut i: usize = 0;
    while i < types.len()
        invariant
            i <= types.len(),
            forall|j: int|
                0 <= j < i ==> #[trigger] java_types(types@)[j] is Int || (or_bool && java_types(
                    types@,
                )[j] is Boolean),
        decreases types.len() - i,
    {
        assert(java_types(types@)[i as int] == types@[i as int]@);
        let fits = match &types[i] {
            JType::Int => true,
            JType::Boolean => or_bool,
            _ => false,
        };
        if !fits {
            return false;
        }
        i += 1;
    }
    true
}

/// The type that evidence gives a variable.
fn infer_type(ev: &Vec<Evidence>, tested: bool) -> (r: Option<JType>)
    ensures
        match r {
            Some(t) => inferred(evidence_list(ev@), tested) == Some(t@),
            None => inferred(evidence_list(ev@), tested) is None,
        },
{
    let types = evidence_types(ev, &None);
    assert(java_types(types@).len() == types@.len());
    if types.len() > 0 && ((tested && all_ints(&types, false)) || (any_type(&types, &JType::Boolean)
        && all_ints(&types, true))) {
        Some(JType::Boolean)
    } else {
        combine_types(&types)
    }
}

/// Whether evidence is good enough to narrow a merge variable.
fn concrete(types: &Vec<JType>, ret_ty: &JType) -> (r: bool)
    ensures
        r == is_concrete(java_types(types@), ret_ty@),
{
    assert(java_types(types@).len() == types@.len());
    if types.len() == 0 || any_type(types, &object("java/lang/Object")) {
        return false;
    }
    let mut same = true;
    let mut arrays = true;
    let mut i: usize = 0;
    assert(java_types(types@)[0] == types@[0]@);
    while i < types.len()
        invariant
            i <= types.len(),
            types.len() > 0,
            java_types(types@)[0] == types@[0]@,
            java_types(types@).len() == types@.len(),
            same == forall|j: int|
                1 <= j < i ==> #[trigger] java_types(types@)[j] == java_types(types@)[0],
            arrays == forall|j: int| 0 <= j < i ==> #[trigger] java_types(types@)[j] is Array,
        decreases types.len() - i,
    {
        assert(java_types(types@)[i as int] == types@[i as int]@);
        if !types[i].same(&types[0]) {
            same = false;
        }
        if !matches!(&types[i], JType::Array(_)) {
            arrays = false;
        }
        i += 1;
    }
    same || (matches!(ret_ty, JType::Array(_)) && arrays)
}

/// The type of variable `v` after inference.
fn type_from(
    vt: &VarTable,
    v: usize,
    ev: &Vec<Evidence>,
    tested: bool,
    ret_ty: &JType,
    pc: &PoolClass,
) -> (r: TypeRef)
    requires
        v < vt.vars.len(),
    ensures
        r@ == inferred_type(vt@, v as int, evidence_list(ev@), tested, ret_ty@, pc@),
{
    let info = &vt.vars[v];
    assert(vt@.vars[v as int] == info@);
    if !info.synthetic_name || info.is_param {
        return info.ty.clone();
    }
    let t = match infer_type(ev, tested) {
        Some(t) => t,
        None => return info.ty.clone(),
    };
    let before = info.ty.erased();
    let was_int = matches!(&before, JType::Int);
    if matches!(&t, JType::Int) && !was_int {
        return info.ty.clone();
    }
    let id = v as u32;
    let wide = vt.wide_stack_vars.contains(&id);
    if wide {
        let own = Some(JType::Object(pc.internal_name.clone()));
        let types = evidence_types(ev, &own);
        if !concrete(&types, ret_ty) {
            return info.ty.clone();
        }
    }
    if !contains_u32(&vt.stack_vars, id) || (matches!(&t, JType::Boolean) && was_int) || wide {
        TypeRef::J(t)
    } else {
        TypeRef::J(join_types(&before, &t))
    }
}

/// The evidence of a whole body on the variables of `vt`.
pub open spec fn body_evidence(vt: VarTableV, body: StmtV, ret_ty: JTypeV) -> Seq<Seq<EvidenceV>> {
    stmt_evidence(body, ret_ty, Seq::new(vt.vars.len(), |i: int| Seq::<EvidenceV>::empty()))
}

/// The table with every variable typed from the evidence of `body`.
pub open spec fn types_inferred(
    vt: VarTableV,
    body: StmtV,
    ret_ty: JTypeV,
    pc: PoolClassV,
) -> VarTableV {
    let ev = body_evidence(vt, body, ret_ty);
    VarTableV {
        vars: Seq::new(
            vt.vars.len(),
            |i: int|
                VarInfoV {
                    ty: inferred_type(vt, i, ev[i], tested_bool(body, i as u32), ret_ty, pc),
                    ..vt.vars[i]
                },
        ),
        ..vt
    }
}

// ---------------------------------------------------------------------
// Truth values through copies.

/// The table after a copy of local `value` to variable `to`: a made-up `int` that
/// is copied to a `boolean` is a `boolean`.
pub open spec fn bool_copied(to: Option<u32>, value: ExprV, vt: VarTableV) -> VarTableV {
    match (to, as_local(value)) {
        (Some(t), Some(v)) => if has_var(vt, t) && has_var(vt, v) && erase(
            vt.vars[t as int].ty,
        ) is Boolean && erase(vt.vars[v as int].ty) is Int && vt.vars[v as int].synthetic_name {
            with_type(vt, v, TypeRefV::J(JTypeV::Boolean))
        } else {
            vt
        },
        _ => vt,
    }
}

/// Follows one copy.
fn note_copy(to: u32, value: &Expr, vt: &mut VarTable)
    ensures
        final(vt)@ == bool_copied(Some(to), value@, old(vt)@),
{
    if let Some(v) = local_var(value) {
        if (to as usize) < vt.vars.len() && (v as usize) < vt.vars.len() && matches!(
            vt.vars[to as usize].ty.erased(),
            JType::Boolean
        ) && matches!(vt.vars[v as usize].ty.erased(), JType::Int)
            && vt.vars[v as usize].synthetic_name {
            vt.set_type(v, TypeRef::J(JType::Boolean));
        }
    }
}

/// The table after a plain assignment `e`.
pub open spec fn assign_copied(e: ExprV, vt: VarTableV) -> VarTableV {
    match e {
        ExprV::Assign { target, op, value } => if op is Plain {
            bool_copied(as_local(*target), *value, vt)
        } else {
            vt
        },
        _ => vt,
    }
}

/// Follows a plain assignment.
fn note_assign(e: &Expr, vt: &mut VarTable)
    ensures
        final(vt)@ == assign_copied(e@, old(vt)@),
{
    if let Expr::Assign { target, op: AssignOp::Plain, value } = e {
        if let Some(t) = local_var(target) {
            note_copy(t, value, vt);
        }
    }
}

/// The table after the copies in `s`, front to back.
pub open spec fn bools_copied(s: StmtV, vt: VarTableV) -> VarTableV
    decreases s,
{
    match s {
        StmtV::Block(items) => { bools_copied_seq(items, vt) },
        StmtV::ExprStmt(e) => assign_copied(e, vt),
        StmtV::LocalDef { var, init, .. } => match init {
            Some(e) => bool_copied(Some(var), e, vt),
            None => vt,
        },
        StmtV::If { then_stmt, else_stmt, .. } => {
            let vt1 = bools_copied(*then_stmt, vt);
            bools_copied_opt(else_stmt, vt1)
        },
        StmtV::While { body, .. } => { bools_copied(*body, vt) },
        StmtV::DoWhile { body, .. } => { bools_copied(*body, vt) },
        StmtV::For { init, body, .. } => {
            let vt1 = bools_copied_seq(init, vt);
            bools_copied(*body, vt1)
        },
        StmtV::ForEach { body, .. } => { bools_copied(*body, vt) },
        StmtV::Switch { cases, default, .. } => {
            let vt1 = bools_copied_cases(cases, vt);
            bools_copied_opt(default, vt1)
        },
        StmtV::Try { body, catches, finally } => {
            let vt1 = bools_copied(*body, vt);
            let vt2 = bools_copied_catches(catches, vt1);
            bools_copied_opt(finally, vt2)
        },
        StmtV::TryWithResources { resources, body, catches, finally } => {
            let vt1 = bools_copied_seq(resources, vt);
            let vt2 = bools_copied(*body, vt1);
            let vt3 = bools_copied_catches(catches, vt2);
            bools_copied_opt(finally, vt3)
        },
        StmtV::Synchronized { body, .. } => { bools_copied(*body, vt) },
        StmtV::Labeled { body, .. } => { bools_copied(*body, vt) },
        _ => vt,
    }
}

/// [`bools_copied`] where there is a value.
pub open spec fn bools_copied_opt(o: Option<Box<StmtV>>, vt: VarTableV) -> VarTableV
    decreases o,
{
    match o {
        Some(x) => bools_copied(*x, vt),
        None => vt,
    }
}

/// [`bools_copied`] over a list, in order.
pub open spec fn bools_copied_seq(l: Seq<StmtV>, vt: VarTableV) -> VarTableV
    decreases l,
{
    if l.len() == 0 {
        vt
    } else {
        let vt1 = bools_copied_seq(l.drop_last(), vt);
        bools_copied(l.last(), vt1)
    }
}

/// [`bools_copied`] inside a switch arm.
pub open spec fn bools_copied_case(c: CaseGroupV, vt: VarTableV) -> VarTableV
    decreases c,
{
    bools_copied_seq(c.body, vt)
}

/// [`bools_copied`] over a list, in order.
pub open spec fn bools_copied_cases(l: Seq<CaseGroupV>, vt: VarTableV) -> VarTableV
    decreases l,
{
    if l.len() == 0 {
        vt
    } else {
        let vt1 = bools_copied_cases(l.drop_last(), vt);
        bools_copied_case(l.last(), vt1)
    }
}

/// [`bools_copied`] inside a catch clause.
pub open spec fn bools_copied_catch(c: CatchV, vt: VarTableV) -> VarTableV
    decreases c,
{
    bools_copied(*c.body, vt)
}

/// [`bools_copied`] over a list, in order.
pub open spec fn bools_copied_catches(l: Seq<CatchV>, vt: VarTableV) -> VarTableV
    decreases l,
{
    if l.len() == 0 {
        vt
    } else {
        let vt1 = bools_copied_catches(l.drop_last(), vt);
        bools_copied_catch(l.last(), vt1)
    }
}

/// Makes made-up `int`s that are copied to a `boolean` `boolean`s, front to back.
pub fn propagate_bool_copies(s: &Stmt, vt: &mut VarTable)
    ensures
        final(vt)@ == bools_copied(s@, old(vt)@),
    decreases s,
{
    match s {
        Stmt::Block(items) => { propagate_bool_copies_vec(items, vt); },
        Stmt::ExprStmt(e) => note_assign(e, vt),
        Stmt::LocalDef { var, init, .. } => { if let Some(e) = init { note_copy(*var, e, vt); } },
        Stmt::If { then_stmt, else_stmt, .. } => {
            propagate_bool_copies(then_stmt, vt);
            propagate_bool_copies_opt(else_stmt, vt);
        },
        Stmt::While { body, .. } => { propagate_bool_copies(body, vt); },
        Stmt::DoWhile { body, .. } => { propagate_bool_copies(body, vt); },
        Stmt::For { init, body, .. } => {
            propagate_bool_copies_vec(init, vt);
            propagate_bool_copies(body, vt);
        },
        Stmt::ForEach { body, .. } => { propagate_bool_copies(body, vt); },
        Stmt::Switch { cases, default, .. } => {
            propagate_bool_copies_cases(cases, vt);
            propagate_bool_copies_opt(default, vt);
        },
        Stmt::Try { body, catches, finally } => {
            propagate_bool_copies(body, vt);
            propagate_bool_copies_catches(catches, vt);
            propagate_bool_copies_opt(finally, vt);
        },
        Stmt::TryWithResources { resources, body, catches, finally } => {
            propagate_bool_copies_vec(resources, vt);
            propagate_bool_copies(body, vt);
            propagate_bool_copies_catches(catches, vt);
            propagate_bool_copies_opt(finally, vt);
        },
        Stmt::Synchronized { body, .. } => { propagate_bool_copies(body, vt); },
        Stmt::Labeled { body, .. } => { propagate_bool_copies(body, vt); },
        _ => {},
    }
}

/// `propagate_bool_copies` where there is a value.
pub fn propagate_bool_copies_opt(o: &Option<Box<Stmt>>, vt: &mut VarTable)
    ensures
        final(vt)@ == bools_copied_opt(opt_stmt(*o), old(vt)@),
    decreases o,
{
    if let Some(x) = o {
        propagate_bool_copies(x, vt);
    }
}

/// `propagate_bool_copies` over a list, in order.
#[verifier::loop_isolation(false)]
pub fn propagate_bool_copies_vec(l: &Vec<Stmt>, vt: &mut VarTable)
    ensures
        final(vt)@ == bools_copied_seq(stmts(l@), old(vt)@),
    decreases l,
{
    let ghost all = stmts(l@);
    let mut i: usize = 0;
    while i < l.len()
        invariant
            i <= l.len(),
            vt@ == bools_copied_seq(all.take(i as int), old(vt)@),
        decreases l.len() - i,
    {
        assert(decreases_to!(l => l@[i as int]));
        assert(all.take(i + 1).drop_last() =~= all.take(i as int));
        propagate_bool_copies(&l[i], vt);
        i += 1;
    }
    assert(all.take(i as int) =~= all);
}

/// `propagate_bool_copies` inside a switch arm.
pub fn propagate_bool_copies_case(c: &CaseGroup, vt: &mut VarTable)
    ensures
        final(vt)@ == bools_copied_case(c@, old(vt)@),
    decreases c,
{
    propagate_bool_copies_vec(&c.body, vt);
}

/// `propagate_bool_copies` over a list, in order.
#[verifier::loop_isolation(false)]
pub fn propagate_bool_copies_cases(l: &Vec<CaseGroup>, vt: &mut VarTable)
    ensures
        final(vt)@ == bools_copied_cases(case_groups(l@), old(vt)@),
    decreases l,
{
    let ghost all = case_groups(l@);
    let mut i: usize = 0;
    while i < l.len()
        invariant
            i <= l.len(),
            vt@ == bools_copied_cases(all.take(i as int), old(vt)@),
        decreases l.len() - i,
    {
        assert(decreases_to!(l => l@[i as int]));
        assert(all.take(i + 1).drop_last() =~= all.take(i as int));
        propagate_bool_copies_case(&l[i], vt);
        i += 1;
    }
    assert(all.take(i as int) =~= all);
}

/// `propagate_bool_copies` inside a catch clause.
pub fn propagate_bool_copies_catch(c: &Catch, vt: &mut VarTable)
    ensures
        final(vt)@ == bools_copied_catch(c@, old(vt)@),
    decreases c,
{
    propagate_bool_copies(&c.body, vt);
}

/// `propagate_bool_copies` over a list, in order.
#[verifier::loop_isolation(false)]
pub fn propagate_bool_copies_catches(l: &Vec<Catch>, vt: &mut VarTable)
    ensures
        final(vt)@ == bools_copied_catches(catch_list(l@), old(vt)@),
    decreases l,
{
    let ghost all = catch_list(l@);
    let mut i: usize = 0;
    while i < l.len()
        invariant
            i <= l.len(),
            vt@ == bools_copied_catches(all.take(i as int), old(vt)@),
        decreases l.len() - i,
    {
        assert(decreases_to!(l => l@[i as int]));
        assert(all.take(i + 1).drop_last() =~= all.take(i as int));
        propagate_bool_copies_catch(&l[i], vt);
        i += 1;
    }
    assert(all.take(i as int) =~= all);
}

/// The table after `n` rounds of following copies; a round that changes nothing
/// is the last that could.
pub open spec fn bool_rounds(s: StmtV, vt: VarTableV, n: nat) -> VarTableV
    decreases n,
{
    if n == 0 {
        vt
    } else {
        bools_copied(s, bool_rounds(s, vt, (n - 1) as nat))
    }
}

/// The outcome of type inference: variables typed from the evidence, split where
/// one slot held several types, copies of truth values followed for four rounds,
/// and every access in the body given its variable's type.
pub open spec fn inference(
    vt: VarTableV,
    body: StmtV,
    ret_ty: JTypeV,
    pc: PoolClassV,
) -> (VarTableV, StmtV) {
    let (split_body, split_vt) = split_done(body, types_inferred(vt, body, ret_ty, pc));
    let done = bool_rounds(split_body, split_vt, 4);
    (done, stmt_retyped(split_body, var_types(done)))
}

/// Infers the types of made-up variables and gives every access in `body` its
/// variable's type.
#[verifier::loop_isolation(false)]
pub fn infer_var_types(vt: &mut VarTable, body: &mut Stmt, ret_ty: &JType, pc: &PoolClass)
    ensures
        (final(vt)@, final(body)@) == inference(old(vt)@, old(body)@, ret_ty@, pc@),
{
    let n = vt.vars.len();
    let mut ev = EvidenceTable { rows: Vec::new() };
    let mut i: usize = 0;
    while i < n
        invariant
            i <= n,
            ev.rows.len() == i,
            forall|j: int| 0 <= j < i ==> (#[trigger] ev.rows@[j])@ =~= seq![],
        decreases n - i,
    {
        ev.rows.push(Vec::new());
        i += 1;
    }
    assert(ev@ =~= Seq::new(vt@.vars.len(), |i: int| Seq::<EvidenceV>::empty())) by {
        assert forall|j: int| 0 <= j < n implies #[trigger] ev@[j] == Seq::<EvidenceV>::empty() by {
            assert(evidence_list(ev.rows@[j]@) =~= seq![]);
        }
    }
    gather_evidence(body, ret_ty, &mut ev);
    let mut tested: HashSet<u32> = HashSet::new();
    mark_bools(body, &mut tested);
    let ghost start = vt@;
    let ghost all = ev@;
    proof {
        lemma_evidence_len(
            body@,
            ret_ty@,
            Seq::new(start.vars.len(), |i: int| Seq::<EvidenceV>::empty()),
        );
    }
    let mut types: Vec<TypeRef> = Vec::new();
    let mut v: usize = 0;
    while v < n
        invariant
            v <= n,
            types.len() == v,
            forall|j: int|
                0 <= j < v ==> (#[trigger] types@[j])@ == inferred_type(
                    start,
                    j,
                    all[j],
                    tested_bool(body@, j as u32),
                    ret_ty@,
                    pc@,
                ),
        decreases n - v,
    {
        assert(all[v as int] == evidence_list(ev.rows@[v as int]@));
        let t = type_from(vt, v, &ev.rows[v], tested.contains(&(v as u32)), ret_ty, pc);
        types.push(t);
        v += 1;
    }
    let mut v: usize = 0;
    while v < n
        invariant
            v <= n,
            vt.vars.len() == n,
            types.len() == n,
            forall|j: int|
                0 <= j < v
                    ==> (#[trigger] vt.vars@[j])@ == (VarInfoV { ty: types@[j]@, ..start.vars[j] }),
            forall|j: int| v <= j < n ==> (#[trigger] vt.vars@[j])@ == start.vars[j],
            vt.by_slot == old(vt).by_slot,
            vt.has_lvt == old(vt).has_lvt,
            vt.stack_vars == old(vt).stack_vars,
            vt.wide_stack_vars == old(vt).wide_stack_vars,
            vt.handler_starts == old(vt).handler_starts,
        decreases n - v,
    {
        vt.vars[v].ty = types[v].clone();
        v += 1;
    }
    assert(var_infos(vt.vars@) =~= types_inferred(start, body@, ret_ty@, pc@).vars);
    split_reassigned_synthetic(vt, body);
    let ghost base = vt@;
    let mut round: usize = 0;
    while round < 4
        invariant
            round <= 4,
            vt@ == bool_rounds(body@, base, round as nat),
        decreases 4 - round,
    {
        propagate_bool_copies(body, vt);
        round += 1;
    }
    let types = local_types(vt);
    rewrite_local_types(body, &types);
}

/// Gathering evidence keeps the number of variables.
proof fn lemma_expr_evidence_len(e: ExprV, ev: Seq<Seq<EvidenceV>>)
    ensures
        expr_evidence(e, ev).len() == ev.len(),
    decreases e, 0nat,
{
    match e {
        ExprV::New { args, .. } => { lemma_exprs_evidence_len(args, ev); },
        ExprV::AnonNew { args, .. } => { lemma_exprs_evidence_len(args, ev); },
        ExprV::NewArray { dims, init, .. } => {
            lemma_exprs_evidence_len(dims, ev);
            if let Some(x) = init {
                lemma_exprs_evidence_len(x, expr_evidence_exprs(dims, ev));
            }
            assert(expr_evidence_oexprs(init, expr_evidence_exprs(dims, ev)).len() == ev.len());
        },
        ExprV::NewMultiArray { dims, .. } => { lemma_exprs_evidence_len(dims, ev); },
        ExprV::Invokedynamic { args, .. } => { lemma_exprs_evidence_len(args, ev); },
        ExprV::Method { args, desc, .. } => {
            lemma_args_evidence_len(args, desc.args, shorter(args.len(), desc.args.len()), ev);
        },
        ExprV::Bin { l, r, .. } => {
            lemma_expr_evidence_len(*l, ev);
            lemma_expr_evidence_len(*r, expr_evidence(*l, ev));
        },
        ExprV::Un { e: x, .. } => { lemma_expr_evidence_len(*x, ev); },
        ExprV::Cast { e: x, .. } => { lemma_expr_evidence_len(*x, ev); },
        ExprV::InstanceOf { e: x, .. } => { lemma_expr_evidence_len(*x, ev); },
        ExprV::PreIncDec { e: x, .. } => { lemma_expr_evidence_len(*x, ev); },
        ExprV::PostIncDec { e: x, .. } => { lemma_expr_evidence_len(*x, ev); },
        ExprV::Cond { c, t, f } => {
            lemma_expr_evidence_len(*c, ev);
            lemma_expr_evidence_len(*t, expr_evidence(*c, ev));
            lemma_expr_evidence_len(*f, expr_evidence(*t, expr_evidence(*c, ev)));
        },
        ExprV::ArrayIndex { array, index } => {
            lemma_expr_evidence_len(*array, ev);
            lemma_expr_evidence_len(*index, expr_evidence(*array, ev));
        },
        ExprV::Field { owner, .. } => {
            lemma_opt_evidence_len(owner, ev);
        },
        ExprV::StringConcat(parts) => { lemma_parts_evidence_len(parts, ev); },
        ExprV::Lambda(l) => { lemma_captures_evidence_len(*l, ev); },
        ExprV::Assign { target, value, .. } => {
            let ev0 = match as_local(*target) {
                Some(v) => value_evidence(ev, v, *value),
                None => ev,
            };
            lemma_expr_evidence_len(*target, ev0);
            lemma_expr_evidence_len(*value, expr_evidence(*target, ev0));
        },
        _ => {},
    }
}

proof fn lemma_opt_evidence_len(o: Option<Box<ExprV>>, ev: Seq<Seq<EvidenceV>>)
    ensures
        expr_evidence_opt(o, ev).len() == ev.len(),
    decreases o, 0nat,
{
    if let Some(x) = o {
        lemma_expr_evidence_len(*x, ev);
    }
}

proof fn lemma_captures_evidence_len(l: LambdaExprV, ev: Seq<Seq<EvidenceV>>)
    ensures
        expr_evidence_captures(l, ev).len() == ev.len(),
    decreases l, 0nat,
{
    lemma_exprs_evidence_len(l.captures, ev);
}

proof fn lemma_exprs_evidence_len(v: Seq<ExprV>, ev: Seq<Seq<EvidenceV>>)
    ensures
        expr_evidence_exprs(v, ev).len() == ev.len(),
    decreases v, 0nat,
{
    if v.len() > 0 {
        lemma_exprs_evidence_len(v.drop_last(), ev);
        lemma_expr_evidence_len(v.last(), expr_evidence_exprs(v.drop_last(), ev));
    }
}

proof fn lemma_parts_evidence_len(v: Seq<ConcatPartV>, ev: Seq<Seq<EvidenceV>>)
    ensures
        expr_evidence_parts(v, ev).len() == ev.len(),
    decreases v, 0nat,
{
    if v.len() > 0 {
        lemma_parts_evidence_len(v.drop_last(), ev);
        lemma_part_evidence_len(v.last(), expr_evidence_parts(v.drop_last(), ev));
    }
}

proof fn lemma_part_evidence_len(p: ConcatPartV, ev: Seq<Seq<EvidenceV>>)
    ensures
        expr_evidence_part(p, ev).len() == ev.len(),
    decreases p, 0nat,
{
    if let ConcatPartV::Str(e) = p {
        lemma_expr_evidence_len(e, ev);
    }
}

proof fn lemma_args_evidence_len(
    args: Seq<ExprV>,
    types: Seq<JTypeV>,
    n: nat,
    ev: Seq<Seq<EvidenceV>>,
)
    ensures
        args_evidence(args, types, n, ev).len() == ev.len(),
    decreases args, n,
{
    if 0 < n <= args.len() && n <= types.len() {
        lemma_args_evidence_len(args, types, (n - 1) as nat, ev);
        let before = args_evidence(args, types, (n - 1) as nat, ev);
        lemma_expr_evidence_len(
            args[n - 1],
            arg_evidence(before, args[n - 1], types[n - 1]),
        );
    }
}

/// Gathering evidence keeps the number of variables.
proof fn lemma_evidence_len(s: StmtV, ret_ty: JTypeV, ev: Seq<Seq<EvidenceV>>)
    ensures
        stmt_evidence(s, ret_ty, ev).len() == ev.len(),
    decreases s,
{
    match s {
        StmtV::Block(items) => {
            lemma_evidence_len_seq(items, ret_ty, ev);
            let ev1 = stmt_evidence_seq(items, ret_ty, ev);
        },
        StmtV::ExprStmt(e) => { lemma_expr_evidence_len(e, ev); let ev1 = expr_evidence(e, ev); },
        StmtV::Assert { cond, msg } => {
            lemma_expr_evidence_len(cond, ev);
            lemma_oexpr_evidence_len(msg, expr_evidence(cond, ev));
        },
        StmtV::TernaryValue { e } => { lemma_expr_evidence_len(e, ev); },
        StmtV::MonitorEnter(e) => { lemma_expr_evidence_len(e, ev); },
        StmtV::MonitorExit(e) => { lemma_expr_evidence_len(e, ev); },
        StmtV::Labeled { body, .. } => { lemma_evidence_len(*body, ret_ty, ev); },
        StmtV::If { cond, then_stmt, else_stmt } => {
            lemma_expr_evidence_len(cond, ev);
            let ev1 = expr_evidence(cond, ev);
            lemma_evidence_len(*then_stmt, ret_ty, ev1);
            let ev2 = stmt_evidence(*then_stmt, ret_ty, ev1);
            lemma_evidence_len_opt(else_stmt, ret_ty, ev2);
            let ev3 = stmt_evidence_opt(else_stmt, ret_ty, ev2);
        },
        StmtV::While { cond, body } => {
            lemma_expr_evidence_len(cond, ev);
            let ev1 = expr_evidence(cond, ev);
            lemma_evidence_len(*body, ret_ty, ev1);
            let ev2 = stmt_evidence(*body, ret_ty, ev1);
        },
        StmtV::DoWhile { body, cond } => {
            lemma_expr_evidence_len(cond, ev);
            let ev1 = expr_evidence(cond, ev);
            lemma_evidence_len(*body, ret_ty, ev1);
            let ev2 = stmt_evidence(*body, ret_ty, ev1);
        },
        StmtV::For { init, cond, update, body } => {
            lemma_evidence_len_seq(init, ret_ty, ev);
            let ev1 = stmt_evidence_seq(init, ret_ty, ev);
            lemma_oexpr_evidence_len(cond, ev1);
            let ev2 = expr_evidence_oexpr(cond, ev1);
            lemma_exprs_evidence_len(update, ev2);
            let ev3 = expr_evidence_exprs(update, ev2);
            lemma_evidence_len(*body, ret_ty, ev3);
            let ev4 = stmt_evidence(*body, ret_ty, ev3);
        },
        StmtV::ForEach { iterable, body, .. } => {
            lemma_expr_evidence_len(iterable, ev);
            let ev1 = expr_evidence(iterable, ev);
            lemma_evidence_len(*body, ret_ty, ev1);
            let ev2 = stmt_evidence(*body, ret_ty, ev1);
        },
        StmtV::Switch { selector, cases, default, .. } => {
            lemma_expr_evidence_len(selector, ev);
            let ev1 = expr_evidence(selector, ev);
            lemma_evidence_len_cases(cases, ret_ty, ev1);
            let ev2 = stmt_evidence_cases(cases, ret_ty, ev1);
            lemma_evidence_len_opt(default, ret_ty, ev2);
            let ev3 = stmt_evidence_opt(default, ret_ty, ev2);
        },
        StmtV::Try { body, catches, finally } => {
            lemma_evidence_len(*body, ret_ty, ev);
            let ev1 = stmt_evidence(*body, ret_ty, ev);
            lemma_evidence_len_catches(catches, ret_ty, ev1);
            let ev2 = stmt_evidence_catches(catches, ret_ty, ev1);
            lemma_evidence_len_opt(finally, ret_ty, ev2);
            let ev3 = stmt_evidence_opt(finally, ret_ty, ev2);
        },
        StmtV::TryWithResources { resources, body, catches, finally } => {
            lemma_evidence_len_seq(resources, ret_ty, ev);
            let ev1 = stmt_evidence_seq(resources, ret_ty, ev);
            lemma_evidence_len(*body, ret_ty, ev1);
            let ev2 = stmt_evidence(*body, ret_ty, ev1);
            lemma_evidence_len_catches(catches, ret_ty, ev2);
            let ev3 = stmt_evidence_catches(catches, ret_ty, ev2);
            lemma_evidence_len_opt(finally, ret_ty, ev3);
            let ev4 = stmt_evidence_opt(finally, ret_ty, ev3);
        },
        StmtV::Synchronized { lock, body } => {
            lemma_expr_evidence_len(lock, ev);
            let ev1 = expr_evidence(lock, ev);
            lemma_evidence_len(*body, ret_ty, ev1);
            let ev2 = stmt_evidence(*body, ret_ty, ev1);
        },
        StmtV::Label(_) => {  },
        StmtV::Goto(_) => {  },
        StmtV::ClassDecl { .. } => {  },
        StmtV::Break(_) => {  },
        StmtV::Continue(_) => {  },
        StmtV::Comment(_) => {  },
        StmtV::LocalDef { var, init, .. } => {
            if let Some(e) = init {
                lemma_expr_evidence_len(e, value_evidence(ev, var, e));
            }
        },
        StmtV::Return(e) => {
            if let Some(x) = e {
                lemma_expr_evidence_len(x, ev);
            }
        },
        StmtV::Throw(e) => {
            lemma_expr_evidence_len(e, ev);
        },
        _ => {},
    }
}

proof fn lemma_oexpr_evidence_len(o: Option<ExprV>, ev: Seq<Seq<EvidenceV>>)
    ensures
        expr_evidence_oexpr(o, ev).len() == ev.len(),
{
    if let Some(e) = o {
        lemma_expr_evidence_len(e, ev);
    }
}

proof fn lemma_evidence_len_opt(o: Option<Box<StmtV>>, ret_ty: JTypeV, ev: Seq<Seq<EvidenceV>>)
    ensures
        stmt_evidence_opt(o, ret_ty, ev).len() == ev.len(),
    decreases o,
{
    if let Some(x) = o {
        lemma_evidence_len(*x, ret_ty, ev);
    }
}

proof fn lemma_evidence_len_seq(v: Seq<StmtV>, ret_ty: JTypeV, ev: Seq<Seq<EvidenceV>>)
    ensures
        stmt_evidence_seq(v, ret_ty, ev).len() == ev.len(),
    decreases v,
{
    if v.len() > 0 {
        lemma_evidence_len_seq(v.drop_last(), ret_ty, ev);
        lemma_evidence_len(v.last(), ret_ty, stmt_evidence_seq(v.drop_last(), ret_ty, ev));
    }
}

proof fn lemma_evidence_len_cases(v: Seq<CaseGroupV>, ret_ty: JTypeV, ev: Seq<Seq<EvidenceV>>)
    ensures
        stmt_evidence_cases(v, ret_ty, ev).len() == ev.len(),
    decreases v,
{
    if v.len() > 0 {
        lemma_evidence_len_cases(v.drop_last(), ret_ty, ev);
        lemma_evidence_len_case(v.last(), ret_ty, stmt_evidence_cases(v.drop_last(), ret_ty, ev));
    }
}

proof fn lemma_evidence_len_catches(v: Seq<CatchV>, ret_ty: JTypeV, ev: Seq<Seq<EvidenceV>>)
    ensures
        stmt_evidence_catches(v, ret_ty, ev).len() == ev.len(),
    decreases v,
{
    if v.len() > 0 {
        lemma_evidence_len_catches(v.drop_last(), ret_ty, ev);
        lemma_evidence_len_catch(
            v.last(),
            ret_ty,
            stmt_evidence_catches(v.drop_last(), ret_ty, ev),
        );
    }
}

proof fn lemma_evidence_len_case(c: CaseGroupV, ret_ty: JTypeV, ev: Seq<Seq<EvidenceV>>)
    ensures
        stmt_evidence_case(c, ret_ty, ev).len() == ev.len(),
    decreases c,
{
    lemma_oexpr_evidence_len(c.guard, ev);
    lemma_evidence_len_seq(c.body, ret_ty, expr_evidence_oexpr(c.guard, ev));
}

proof fn lemma_evidence_len_catch(c: CatchV, ret_ty: JTypeV, ev: Seq<Seq<EvidenceV>>)
    ensures
        stmt_evidence_catch(c, ret_ty, ev).len() == ev.len(),
    decreases c,
{
    lemma_evidence_len(*c.body, ret_ty, ev);
}

} // verus!
