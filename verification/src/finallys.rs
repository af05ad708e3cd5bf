//! `finally` blocks recovered from the copies that javac makes of them.
use crate::ctor_guards::{as_list, into_vec};
use crate::expr::{
    as_local, concat_parts, exprs, is_local, local_var, opt_box, opt_expr, opt_exprs, ConcatPart,
    ConcatPartV, Expr, ExprV, LambdaExpr, LambdaExprV,
};
use crate::merged_news::{assigned, assigned_local};
use crate::stmt::{
    case_groups, catch_list, empty_block, no_stmt, opt_stmt, same_stmt, same_stmts, stmt_eq, stmts,
    stmts_eq, take_stmt, CaseGroup, CaseGroupV, Catch, CatchV, Stmt, StmtV,
};
use crate::types::strs;
use crate::uses::{collect_decl_vec, declares_seq};
use std::collections::HashSet;
use vstd::prelude::*;

verus! {

broadcast use vstd::std_specs::hash::group_hash_axioms;

// ---------------------------------------------------------------------
// Comparison up to variable names.

/// Position of `v` among the variables seen so far.
pub open spec fn position(seen: Seq<u32>, v: u32) -> Option<int>
    decreases seen.len(),
{
    if seen.len() == 0 {
        None
    } else {
        match position(seen.drop_last(), v) {
            Some(i) => Some(i),
            None => if seen.last() == v {
                Some(seen.len() - 1)
            } else {
                None
            },
        }
    }
}

/// The number that stands for `v`, and the variables seen once it has one: numbers
/// are given in order of first occurrence.
pub open spec fn numbered(v: u32, seen: Seq<u32>) -> (u32, Seq<u32>) {
    match position(seen, v) {
        Some(i) => (i as u32, seen),
        None => (seen.len() as u32, seen.push(v)),
    }
}

/// Gives `v` its number.
#[verifier::loop_isolation(false)]
fn bind(v: u32, seen: &mut Vec<u32>) -> (r: u32)
    ensures
        (r, final(seen)@) == numbered(v, old(seen)@),
{
    let ghost all = seen@;
    let mut i: usize = 0;
    while i < seen.len()
        invariant
            i <= seen.len(),
            seen@ == all,
            position(all.take(i as int), v) is None,
        decreases seen.len() - i,
    {
        assert(all.take(i + 1).drop_last() =~= all.take(i as int));
        if seen[i] == v {
            proof {
                lemma_position(all, i + 1, v);
            }
            return i as u32;
        }
        i += 1;
    }
    assert(all.take(i as int) =~= all);
    let n = seen.len() as u32;
    seen.push(v);
    n
}

/// A first occurrence among the first `n` is the first of all.
proof fn lemma_position(seen: Seq<u32>, n: int, v: u32)
    requires
        0 <= n <= seen.len(),
        position(seen.take(n), v) is Some,
    ensures
        position(seen, v) == position(seen.take(n), v),
    decreases seen.len() - n,
{
    if n < seen.len() {
        assert(seen.take(n + 1).drop_last() =~= seen.take(n));
        lemma_position(seen, n + 1, v);
    } else {
        assert(seen.take(n) =~= seen);
    }
}

/// `e` with its variables replaced by their numbers.
pub open spec fn expr_normed(e: ExprV, seen: Seq<u32>) -> (ExprV, Seq<u32>)
    decreases e,
{
    match e {
        ExprV::Local { var, ty } => {
            let (n, seen1) = numbered(var, seen);
            (ExprV::Local { var: n, ty }, seen1)
        },
        ExprV::New { cls, ty, args, raw } => {
            let (args1, seen1) = expr_normed_exprs(args, seen);
            (ExprV::New { cls, ty, args: args1, raw }, seen1)
        },
        ExprV::NewArray { elem, dims, trailing_dims, init } => {
            let (dims1, seen1) = expr_normed_exprs(dims, seen);
            let (init1, seen2) = expr_normed_oexprs(init, seen1);
            (ExprV::NewArray { elem, dims: dims1, trailing_dims, init: init1 }, seen2)
        },
        ExprV::Field { owner, cls, name, ty, is_static } => {
            let (owner1, seen1) = expr_normed_opt(owner, seen);
            (ExprV::Field { owner: owner1, cls, name, ty, is_static }, seen1)
        },
        ExprV::Method {
            owner,
            cls,
            name,
            desc,
            args,
            is_static,
            is_interface,
            is_special,
            is_super,
            is_dynamic,
            type_args,
        } => {
            let (owner1, seen1) = expr_normed_opt(owner, seen);
            let (args1, seen2) = expr_normed_exprs(args, seen1);
            (
                ExprV::Method {
                    owner: owner1,
                    cls,
                    name,
                    desc,
                    args: args1,
                    is_static,
                    is_interface,
                    is_special,
                    is_super,
                    is_dynamic,
                    type_args,
                },
                seen2,
            )
        },
        ExprV::ArrayIndex { array, index } => {
            let (array1, seen1) = expr_normed(*array, seen);
            let (index1, seen2) = expr_normed(*index, seen1);
            (ExprV::ArrayIndex { array: Box::new(array1), index: Box::new(index1) }, seen2)
        },
        ExprV::Cast { ty, e } => {
            let (e1, seen1) = expr_normed(*e, seen);
            (ExprV::Cast { ty, e: Box::new(e1) }, seen1)
        },
        ExprV::InstanceOf { e, ty } => {
            let (e1, seen1) = expr_normed(*e, seen);
            (ExprV::InstanceOf { e: Box::new(e1), ty }, seen1)
        },
        ExprV::Un { op, e } => {
            let (e1, seen1) = expr_normed(*e, seen);
            (ExprV::Un { op, e: Box::new(e1) }, seen1)
        },
        ExprV::Bin { op, l, r, ty } => {
            let (l1, seen1) = expr_normed(*l, seen);
            let (r1, seen2) = expr_normed(*r, seen1);
            (ExprV::Bin { op, l: Box::new(l1), r: Box::new(r1), ty }, seen2)
        },
        ExprV::Cond { c, t, f } => {
            let (c1, seen1) = expr_normed(*c, seen);
            let (t1, seen2) = expr_normed(*t, seen1);
            let (f1, seen3) = expr_normed(*f, seen2);
            (ExprV::Cond { c: Box::new(c1), t: Box::new(t1), f: Box::new(f1) }, seen3)
        },
        ExprV::Assign { target, op, value } => {
            let (target1, seen1) = expr_normed(*target, seen);
            let (value1, seen2) = expr_normed(*value, seen1);
            (ExprV::Assign { target: Box::new(target1), op, value: Box::new(value1) }, seen2)
        },
        ExprV::PreIncDec { e, delta, wide } => {
            let (e1, seen1) = expr_normed(*e, seen);
            (ExprV::PreIncDec { e: Box::new(e1), delta, wide }, seen1)
        },
        ExprV::PostIncDec { e, delta, wide } => {
            let (e1, seen1) = expr_normed(*e, seen);
            (ExprV::PostIncDec { e: Box::new(e1), delta, wide }, seen1)
        },
        ExprV::Lambda(l) => {
            let (l1, seen1) = expr_normed_captures(*l, seen);
            (ExprV::Lambda(Box::new(l1)), seen1)
        },
        ExprV::StringConcat(parts) => {
            let (parts1, seen1) = expr_normed_parts(parts, seen);
            (ExprV::StringConcat(parts1), seen1)
        },
        ExprV::NewMultiArray { ty, dims } => {
            let (dims1, seen1) = expr_normed_exprs(dims, seen);
            (ExprV::NewMultiArray { ty, dims: dims1 }, seen1)
        },
        ExprV::Invokedynamic { name, desc, args, bsm_text, bsm_static_args } => {
            let (args1, seen1) = expr_normed_exprs(args, seen);
            (ExprV::Invokedynamic { name, desc, args: args1, bsm_text, bsm_static_args }, seen1)
        },
        ExprV::AnonNew { cls, base, args, body } => {
            let (args1, seen1) = expr_normed_exprs(args, seen);
            (ExprV::AnonNew { cls, base, args: args1, body }, seen1)
        },
        _ => (e, seen),
    }
}

/// [`expr_normed`] where there is a value.
pub open spec fn expr_normed_opt(
    o: Option<Box<ExprV>>,
    seen: Seq<u32>,
) -> (Option<Box<ExprV>>, Seq<u32>)
    decreases o,
{
    match o {
        Some(x) => {
            let (y, seen1) = expr_normed(*x, seen);
            (Some(Box::new(y)), seen1)
        },
        None => (None, seen),
    }
}

/// [`expr_normed`] where there is a value.
pub open spec fn expr_normed_oexprs(
    o: Option<Seq<ExprV>>,
    seen: Seq<u32>,
) -> (Option<Seq<ExprV>>, Seq<u32>)
    decreases o,
{
    match o {
        Some(x) => {
            let (y, seen1) = expr_normed_exprs(x, seen);
            (Some(y), seen1)
        },
        None => (None, seen),
    }
}

/// [`expr_normed`] inside the captures of a lambda.
pub open spec fn expr_normed_captures(l: LambdaExprV, seen: Seq<u32>) -> (LambdaExprV, Seq<u32>)
    decreases l,
{
    let (captures, seen1) = expr_normed_exprs(l.captures, seen);
    (LambdaExprV { captures, ..l }, seen1)
}

/// [`expr_normed`] over a list, in order.
pub open spec fn expr_normed_exprs(v: Seq<ExprV>, seen: Seq<u32>) -> (Seq<ExprV>, Seq<u32>)
    decreases v,
{
    if v.len() == 0 {
        (seq![], seen)
    } else {
        let (front, seen1) = expr_normed_exprs(v.drop_last(), seen);
        let (last, seen2) = expr_normed(v.last(), seen1);
        (front.push(last), seen2)
    }
}

/// [`expr_normed`] inside a concatenation piece.
pub open spec fn expr_normed_part(p: ConcatPartV, seen: Seq<u32>) -> (ConcatPartV, Seq<u32>)
    decreases p,
{
    match p {
        ConcatPartV::Str(e) => {
            let (x, seen1) = expr_normed(e, seen);
            (ConcatPartV::Str(x), seen1)
        },
        ConcatPartV::Const(_) => (p, seen),
    }
}

/// [`expr_normed`] over a list, in order.
pub open spec fn expr_normed_parts(
    v: Seq<ConcatPartV>,
    seen: Seq<u32>,
) -> (Seq<ConcatPartV>, Seq<u32>)
    decreases v,
{
    if v.len() == 0 {
        (seq![], seen)
    } else {
        let (front, seen1) = expr_normed_parts(v.drop_last(), seen);
        let (last, seen2) = expr_normed_part(v.last(), seen1);
        (front.push(last), seen2)
    }
}

/// [`expr_normed`] where there is a value.
pub open spec fn expr_normed_oexpr(o: Option<ExprV>, seen: Seq<u32>) -> (Option<ExprV>, Seq<u32>)
    decreases o,
{
    match o {
        Some(x) => {
            let (y, seen1) = expr_normed(x, seen);
            (Some(y), seen1)
        },
        None => (None, seen),
    }
}

/// Replaces the variables in `e` by their numbers.
pub fn norm_expr(e: &mut Expr, seen: &mut Vec<u32>)
    ensures
        final(e)@ == expr_normed(old(e)@, old(seen)@).0,
        final(seen)@ == expr_normed(old(e)@, old(seen)@).1,
    decreases *old(e),
{
    match e {
        Expr::Local { var, .. } => { *var = bind(*var, seen); },
        Expr::New { args, .. } => { norm_expr_exprs(args, seen); },
        Expr::NewArray { dims, init, .. } => {
            norm_expr_exprs(dims, seen);
            norm_expr_oexprs(init, seen);
        },
        Expr::Field { owner, .. } => { norm_expr_opt(owner, seen); },
        Expr::Method { owner, args, .. } => {
            norm_expr_opt(owner, seen);
            norm_expr_exprs(args, seen);
        },
        Expr::ArrayIndex { array, index } => { norm_expr(array, seen); norm_expr(index, seen); },
        Expr::Cast { e, .. } => { norm_expr(e, seen); },
        Expr::InstanceOf { e, .. } => { norm_expr(e, seen); },
        Expr::Un { e, .. } => { norm_expr(e, seen); },
        Expr::Bin { l, r, .. } => { norm_expr(l, seen); norm_expr(r, seen); },
        Expr::Cond { c, t, f } => { norm_expr(c, seen); norm_expr(t, seen); norm_expr(f, seen); },
        Expr::Assign { target, value, .. } => { norm_expr(target, seen); norm_expr(value, seen); },
        Expr::PreIncDec { e, .. } => { norm_expr(e, seen); },
        Expr::PostIncDec { e, .. } => { norm_expr(e, seen); },
        Expr::Lambda(l) => { norm_expr_captures(l, seen); },
        Expr::StringConcat(parts) => { norm_expr_parts(parts, seen); },
        Expr::NewMultiArray { dims, .. } => { norm_expr_exprs(dims, seen); },
        Expr::Invokedynamic { args, .. } => { norm_expr_exprs(args, seen); },
        Expr::AnonNew { args, .. } => { norm_expr_exprs(args, seen); },
        _ => {},
    }
}

/// `norm_expr` where there is a value.
pub fn norm_expr_opt(o: &mut Option<Box<Expr>>, seen: &mut Vec<u32>)
    ensures
        opt_box(*final(o)) == expr_normed_opt(opt_box(*old(o)), old(seen)@).0,
        final(seen)@ == expr_normed_opt(opt_box(*old(o)), old(seen)@).1,
    decreases *old(o),
{
    if let Some(x) = o {
        norm_expr(x, seen);
    }
}

/// `norm_expr` where there is a value.
pub fn norm_expr_oexprs(o: &mut Option<Vec<Expr>>, seen: &mut Vec<u32>)
    ensures
        opt_exprs(*final(o)) == expr_normed_oexprs(opt_exprs(*old(o)), old(seen)@).0,
        final(seen)@ == expr_normed_oexprs(opt_exprs(*old(o)), old(seen)@).1,
    decreases *old(o),
{
    if let Some(x) = o {
        norm_expr_exprs(x, seen);
    }
}

/// `norm_expr` inside the captures of a lambda.
pub fn norm_expr_captures(l: &mut LambdaExpr, seen: &mut Vec<u32>)
    ensures
        final(l)@ == expr_normed_captures(old(l)@, old(seen)@).0,
        final(seen)@ == expr_normed_captures(old(l)@, old(seen)@).1,
    decreases *old(l),
{
    norm_expr_exprs(&mut l.captures, seen);
}

/// `norm_expr` over a list, in order.
#[verifier::loop_isolation(false)]
pub fn norm_expr_exprs(v: &mut Vec<Expr>, seen: &mut Vec<u32>)
    ensures
        exprs(final(v)@) == expr_normed_exprs(exprs(old(v)@), old(seen)@).0,
        final(seen)@ == expr_normed_exprs(exprs(old(v)@), old(seen)@).1,
    decreases *old(v),
{
    let mut i: usize = 0;
    assert(exprs(v@.take(0)) =~= seq![]);
    while i < v.len()
        invariant
            i <= v.len(),
            v.len() == old(v).len(),
            exprs(v@.take(i as int)) == expr_normed_exprs(
                exprs(old(v)@).take(i as int),
                old(seen)@,
            ).0,
            seen@ == expr_normed_exprs(exprs(old(v)@).take(i as int), old(seen)@).1,
            forall|j: int| i <= j < v.len() ==> #[trigger] v@[j] == old(v)@[j],
        decreases v.len() - i,
    {
        let ghost before = exprs(v@.take(i as int));
        let ghost done = exprs(old(v)@).take(i + 1);
        assert(done.drop_last() =~= exprs(old(v)@).take(i as int));
        assert(done.last() == v@[i as int]@);
        assert(decreases_to!(*old(v) => v@[i as int]));
        norm_expr(&mut v[i], seen);
        i += 1;
        assert(exprs(v@.take(i as int)) =~= before.push(v@[i - 1]@));
    }
    assert(v@.take(i as int) =~= v@);
    assert(exprs(old(v)@).take(i as int) =~= exprs(old(v)@));
}

/// `norm_expr` inside a concatenation piece.
pub fn norm_expr_part(p: &mut ConcatPart, seen: &mut Vec<u32>)
    ensures
        final(p)@ == expr_normed_part(old(p)@, old(seen)@).0,
        final(seen)@ == expr_normed_part(old(p)@, old(seen)@).1,
    decreases *old(p),
{
    match p {
        ConcatPart::Str(e) => norm_expr(e, seen),
        ConcatPart::Const(_) => {},
    }
}

/// `norm_expr` over a list, in order.
#[verifier::loop_isolation(false)]
pub fn norm_expr_parts(v: &mut Vec<ConcatPart>, seen: &mut Vec<u32>)
    ensures
        concat_parts(final(v)@) == expr_normed_parts(concat_parts(old(v)@), old(seen)@).0,
        final(seen)@ == expr_normed_parts(concat_parts(old(v)@), old(seen)@).1,
    decreases *old(v),
{
    let mut i: usize = 0;
    assert(concat_parts(v@.take(0)) =~= seq![]);
    while i < v.len()
        invariant
            i <= v.len(),
            v.len() == old(v).len(),
            concat_parts(v@.take(i as int)) == expr_normed_parts(
                concat_parts(old(v)@).take(i as int),
                old(seen)@,
            ).0,
            seen@ == expr_normed_parts(concat_parts(old(v)@).take(i as int), old(seen)@).1,
            forall|j: int| i <= j < v.len() ==> #[trigger] v@[j] == old(v)@[j],
        decreases v.len() - i,
    {
        let ghost before = concat_parts(v@.take(i as int));
        let ghost done = concat_parts(old(v)@).take(i + 1);
        assert(done.drop_last() =~= concat_parts(old(v)@).take(i as int));
        assert(done.last() == v@[i as int]@);
        assert(decreases_to!(*old(v) => v@[i as int]));
        norm_expr_part(&mut v[i], seen);
        i += 1;
        assert(concat_parts(v@.take(i as int)) =~= before.push(v@[i - 1]@));
    }
    assert(v@.take(i as int) =~= v@);
    assert(concat_parts(old(v)@).take(i as int) =~= concat_parts(old(v)@));
}

/// `norm_expr` where there is a value.
pub fn norm_expr_oexpr(o: &mut Option<Expr>, seen: &mut Vec<u32>)
    ensures
        opt_expr(*final(o)) == expr_normed_oexpr(opt_expr(*old(o)), old(seen)@).0,
        final(seen)@ == expr_normed_oexpr(opt_expr(*old(o)), old(seen)@).1,
    decreases *old(o),
{
    if let Some(x) = o {
        norm_expr(x, seen);
    }
}

/// A bare `return` or a `throw`.
pub open spec fn is_tail_exit(s: StmtV) -> bool {
    s == StmtV::Return(None) || s is Throw
}

/// A list without the bare `return`s and `throw`s at its end.
pub open spec fn exits_trimmed(v: Seq<StmtV>) -> Seq<StmtV>
    decreases v.len(),
{
    if v.len() > 0 && is_tail_exit(v.last()) {
        exits_trimmed(v.drop_last())
    } else {
        v
    }
}

/// Drops the bare `return`s and `throw`s at the end of a list.
#[verifier::loop_isolation(false)]
fn trim_exits(v: &mut Vec<Stmt>)
    ensures
        stmts(final(v)@) == exits_trimmed(stmts(old(v)@)),
{
    while v.len() > 0 && matches!(&v[v.len() - 1], Stmt::Return(None) | Stmt::Throw(_))
        invariant
            exits_trimmed(stmts(v@)) == exits_trimmed(stmts(old(v)@)),
        decreases v.len(),
    {
        let ghost before = stmts(v@);
        assert(before.last() == v@[v@.len() - 1]@);
        v.pop();
        assert(stmts(v@) =~= before.drop_last());
    }
    if v.len() > 0 {
        assert(stmts(v@).last() == v@[v@.len() - 1]@);
    }
}

/// `s` with its variables replaced by their numbers, the printed names of catch
/// clauses forgotten, and without bare `return`s and `throw`s at the ends of blocks.
pub open spec fn stmt_normed(s: StmtV, seen: Seq<u32>) -> (StmtV, Seq<u32>)
    decreases s,
{
    match s {
        StmtV::Block(items) => {
            let (v, seen1) = stmt_normed_seq(items, seen);
            (StmtV::Block(exits_trimmed(v)), seen1)
        },
        StmtV::ExprStmt(e) => {
            let (e1, seen1) = expr_normed(e, seen);
            (StmtV::ExprStmt(e1), seen1)
        },
        StmtV::LocalDef { var, init, is_final, force_type } => {
            let (n, seen0) = numbered(var, seen);
            let (init1, seen1) = expr_normed_oexpr(init, seen0);
            (StmtV::LocalDef { var: n, init: init1, is_final, force_type }, seen1)
        },
        StmtV::Return(e) => {
            let (e1, seen1) = expr_normed_oexpr(e, seen);
            (StmtV::Return(e1), seen1)
        },
        StmtV::Throw(e) => { let (e1, seen1) = expr_normed(e, seen); (StmtV::Throw(e1), seen1) },
        StmtV::If { cond, then_stmt, else_stmt } => {
            let (cond1, seen1) = expr_normed(cond, seen);
            let (then_stmt1, seen2) = stmt_normed(*then_stmt, seen1);
            let (else_stmt1, seen3) = stmt_normed_opt(else_stmt, seen2);
            (
                StmtV::If { cond: cond1, then_stmt: Box::new(then_stmt1), else_stmt: else_stmt1 },
                seen3,
            )
        },
        StmtV::While { cond, body } => {
            let (cond1, seen1) = expr_normed(cond, seen);
            let (body1, seen2) = stmt_normed(*body, seen1);
            (StmtV::While { cond: cond1, body: Box::new(body1) }, seen2)
        },
        StmtV::DoWhile { body, cond } => {
            let (cond1, seen1) = expr_normed(cond, seen);
            let (body1, seen2) = stmt_normed(*body, seen1);
            (StmtV::DoWhile { body: Box::new(body1), cond: cond1 }, seen2)
        },
        StmtV::For { init, cond, update, body } => {
            let (init1, seen1) = stmt_normed_seq(init, seen);
            let (cond1, seen2) = expr_normed_oexpr(cond, seen1);
            let (update1, seen3) = expr_normed_exprs(update, seen2);
            let (body1, seen4) = stmt_normed(*body, seen3);
            (StmtV::For { init: init1, cond: cond1, update: update1, body: Box::new(body1) }, seen4)
        },
        StmtV::ForEach { var, iterable, is_array, body } => {
            let (n, seen0) = numbered(var, seen);
            let (iterable1, seen1) = expr_normed(iterable, seen0);
            let (body1, seen2) = stmt_normed(*body, seen1);
            (StmtV::ForEach { var: n, iterable: iterable1, is_array, body: Box::new(body1) }, seen2)
        },
        StmtV::Switch { selector, cases, default, on_string } => {
            let (selector1, seen1) = expr_normed(selector, seen);
            let (cases1, seen2) = stmt_normed_cases(cases, seen1);
            let (default1, seen3) = stmt_normed_opt(default, seen2);
            (
                StmtV::Switch { selector: selector1, cases: cases1, default: default1, on_string },
                seen3,
            )
        },
        StmtV::Try { body, catches, finally } => {
            let (body1, seen1) = stmt_normed(*body, seen);
            let (catches1, seen2) = stmt_normed_catches(catches, seen1);
            let (finally1, seen3) = stmt_normed_opt(finally, seen2);
            (StmtV::Try { body: Box::new(body1), catches: catches1, finally: finally1 }, seen3)
        },
        StmtV::TryWithResources { resources, body, catches, finally } => {
            let (resources1, seen1) = stmt_normed_seq(resources, seen);
            let (body1, seen2) = stmt_normed(*body, seen1);
            let (catches1, seen3) = stmt_normed_catches(catches, seen2);
            let (finally1, seen4) = stmt_normed_opt(finally, seen3);
            (
                StmtV::TryWithResources {
                    resources: resources1,
                    body: Box::new(body1),
                    catches: catches1,
                    finally: finally1,
                },
                seen4,
            )
        },
        StmtV::Synchronized { lock, body } => {
            let (lock1, seen1) = expr_normed(lock, seen);
            let (body1, seen2) = stmt_normed(*body, seen1);
            (StmtV::Synchronized { lock: lock1, body: Box::new(body1) }, seen2)
        },
        StmtV::Label(n) => { (StmtV::Label(n), seen) },
        StmtV::Goto(n) => { (StmtV::Goto(n), seen) },
        StmtV::ClassDecl { name, header, body } => {
            (StmtV::ClassDecl { name, header, body }, seen)
        },
        StmtV::Labeled { label, body } => {
            let (body1, seen1) = stmt_normed(*body, seen);
            (StmtV::Labeled { label, body: Box::new(body1) }, seen1)
        },
        StmtV::Break(label) => { (StmtV::Break(label), seen) },
        StmtV::Continue(label) => { (StmtV::Continue(label), seen) },
        StmtV::Comment(text) => { (StmtV::Comment(text), seen) },
        StmtV::Assert { cond, msg } => {
            let (cond1, seen1) = expr_normed(cond, seen);
            let (msg1, seen2) = expr_normed_oexpr(msg, seen1);
            (StmtV::Assert { cond: cond1, msg: msg1 }, seen2)
        },
        StmtV::TernaryValue { e } => {
            let (e1, seen1) = expr_normed(e, seen);
            (StmtV::TernaryValue { e: e1 }, seen1)
        },
        StmtV::MonitorEnter(e) => {
            let (e1, seen1) = expr_normed(e, seen);
            (StmtV::MonitorEnter(e1), seen1)
        },
        StmtV::MonitorExit(e) => {
            let (e1, seen1) = expr_normed(e, seen);
            (StmtV::MonitorExit(e1), seen1)
        },
        _ => (s, seen),
    }
}

/// [`stmt_normed`] where there is a value.
pub open spec fn stmt_normed_opt(
    o: Option<Box<StmtV>>,
    seen: Seq<u32>,
) -> (Option<Box<StmtV>>, Seq<u32>)
    decreases o,
{
    match o {
        Some(x) => {
            let (y, seen1) = stmt_normed(*x, seen);
            (Some(Box::new(y)), seen1)
        },
        None => (None, seen),
    }
}

/// [`stmt_normed`] over a list, in order.
pub open spec fn stmt_normed_seq(v: Seq<StmtV>, seen: Seq<u32>) -> (Seq<StmtV>, Seq<u32>)
    decreases v,
{
    if v.len() == 0 {
        (seq![], seen)
    } else {
        let (front, seen1) = stmt_normed_seq(v.drop_last(), seen);
        let (last, seen2) = stmt_normed(v.last(), seen1);
        (front.push(last), seen2)
    }
}

/// [`stmt_normed`] inside a switch arm.
pub open spec fn stmt_normed_case(c: CaseGroupV, seen: Seq<u32>) -> (CaseGroupV, Seq<u32>)
    decreases c,
{
    let (guard, seen1) = expr_normed_oexpr(c.guard, seen);
    let (body, seen9) = stmt_normed_seq(c.body, seen1);
    (CaseGroupV { guard, body, ..c }, seen9)
}

/// [`stmt_normed`] over a list, in order.
pub open spec fn stmt_normed_cases(
    v: Seq<CaseGroupV>,
    seen: Seq<u32>,
) -> (Seq<CaseGroupV>, Seq<u32>)
    decreases v,
{
    if v.len() == 0 {
        (seq![], seen)
    } else {
        let (front, seen1) = stmt_normed_cases(v.drop_last(), seen);
        let (last, seen2) = stmt_normed_case(v.last(), seen1);
        (front.push(last), seen2)
    }
}

/// [`stmt_normed`] inside a catch clause.
pub open spec fn stmt_normed_catch(c: CatchV, seen: Seq<u32>) -> (CatchV, Seq<u32>)
    decreases c,
{
    let (n, seen0) = numbered(c.var, seen);
    let (body, seen1) = stmt_normed(*c.body, seen0);
    (CatchV { var: n, var_name: None, body: Box::new(body), ..c }, seen1)
}

/// [`stmt_normed`] over a list, in order.
pub open spec fn stmt_normed_catches(v: Seq<CatchV>, seen: Seq<u32>) -> (Seq<CatchV>, Seq<u32>)
    decreases v,
{
    if v.len() == 0 {
        (seq![], seen)
    } else {
        let (front, seen1) = stmt_normed_catches(v.drop_last(), seen);
        let (last, seen2) = stmt_normed_catch(v.last(), seen1);
        (front.push(last), seen2)
    }
}

/// Replaces variables by their numbers, forgets the printed names of catch clauses
/// and drops bare `return`s and `throw`s at the ends of blocks.
pub fn norm_stmt_for_dedupe(s: &mut Stmt, seen: &mut Vec<u32>)
    ensures
        final(s)@ == stmt_normed(old(s)@, old(seen)@).0,
        final(seen)@ == stmt_normed(old(s)@, old(seen)@).1,
    decreases *old(s),
{
    match s {
        Stmt::Block(items) => { norm_stmt_for_dedupe_vec(items, seen); trim_exits(items); },
        Stmt::ExprStmt(e) => { norm_expr(e, seen); },
        Stmt::LocalDef { var, init, .. } => {
            *var = bind(*var, seen);
            norm_expr_oexpr(init, seen);
        },
        Stmt::Return(e) => { norm_expr_oexpr(e, seen); },
        Stmt::Throw(e) => { norm_expr(e, seen); },
        Stmt::If { cond, then_stmt, else_stmt } => {
            norm_expr(cond, seen);
            norm_stmt_for_dedupe(then_stmt, seen);
            norm_stmt_for_dedupe_opt(else_stmt, seen);
        },
        Stmt::While { cond, body } => { norm_expr(cond, seen); norm_stmt_for_dedupe(body, seen); },
        Stmt::DoWhile { body, cond } => {
            norm_expr(cond, seen);
            norm_stmt_for_dedupe(body, seen);
        },
        Stmt::For { init, cond, update, body } => {
            norm_stmt_for_dedupe_vec(init, seen);
            norm_expr_oexpr(cond, seen);
            norm_expr_exprs(update, seen);
            norm_stmt_for_dedupe(body, seen);
        },
        Stmt::ForEach { var, iterable, body, .. } => {
            *var = bind(*var, seen);
            norm_expr(iterable, seen);
            norm_stmt_for_dedupe(body, seen);
        },
        Stmt::Switch { selector, cases, default, .. } => {
            norm_expr(selector, seen);
            norm_stmt_for_dedupe_cases(cases, seen);
            norm_stmt_for_dedupe_opt(default, seen);
        },
        Stmt::Try { body, catches, finally } => {
            norm_stmt_for_dedupe(body, seen);
            norm_stmt_for_dedupe_catches(catches, seen);
            norm_stmt_for_dedupe_opt(finally, seen);
        },
        Stmt::TryWithResources { resources, body, catches, finally } => {
            norm_stmt_for_dedupe_vec(resources, seen);
            norm_stmt_for_dedupe(body, seen);
            norm_stmt_for_dedupe_catches(catches, seen);
            norm_stmt_for_dedupe_opt(finally, seen);
        },
        Stmt::Synchronized { lock, body } => {
            norm_expr(lock, seen);
            norm_stmt_for_dedupe(body, seen);
        },
        Stmt::Label(_) => {  },
        Stmt::Goto(_) => {  },
        Stmt::ClassDecl { .. } => {  },
        Stmt::Labeled { body, .. } => { norm_stmt_for_dedupe(body, seen); },
        Stmt::Break(_) => {  },
        Stmt::Continue(_) => {  },
        Stmt::Comment(_) => {  },
        Stmt::Assert { cond, msg } => { norm_expr(cond, seen); norm_expr_oexpr(msg, seen); },
        Stmt::TernaryValue { e } => { norm_expr(e, seen); },
        Stmt::MonitorEnter(e) => { norm_expr(e, seen); },
        Stmt::MonitorExit(e) => { norm_expr(e, seen); },
        _ => {},
    }
}

/// `norm_stmt_for_dedupe` where there is a value.
pub fn norm_stmt_for_dedupe_opt(o: &mut Option<Box<Stmt>>, seen: &mut Vec<u32>)
    ensures
        opt_stmt(*final(o)) == stmt_normed_opt(opt_stmt(*old(o)), old(seen)@).0,
        final(seen)@ == stmt_normed_opt(opt_stmt(*old(o)), old(seen)@).1,
    decreases *old(o),
{
    if let Some(x) = o {
        norm_stmt_for_dedupe(x, seen);
    }
}

/// `norm_stmt_for_dedupe` over a list, in order.
#[verifier::loop_isolation(false)]
pub fn norm_stmt_for_dedupe_vec(v: &mut Vec<Stmt>, seen: &mut Vec<u32>)
    ensures
        stmts(final(v)@) == stmt_normed_seq(stmts(old(v)@), old(seen)@).0,
        final(seen)@ == stmt_normed_seq(stmts(old(v)@), old(seen)@).1,
    decreases *old(v),
{
    let mut i: usize = 0;
    assert(stmts(v@.take(0)) =~= seq![]);
    while i < v.len()
        invariant
            i <= v.len(),
            v.len() == old(v).len(),
            stmts(v@.take(i as int)) == stmt_normed_seq(
                stmts(old(v)@).take(i as int),
                old(seen)@,
            ).0,
            seen@ == stmt_normed_seq(stmts(old(v)@).take(i as int), old(seen)@).1,
            forall|j: int| i <= j < v.len() ==> #[trigger] v@[j] == old(v)@[j],
        decreases v.len() - i,
    {
        let ghost before = stmts(v@.take(i as int));
        let ghost done = stmts(old(v)@).take(i + 1);
        assert(done.drop_last() =~= stmts(old(v)@).take(i as int));
        assert(done.last() == v@[i as int]@);
        assert(decreases_to!(*old(v) => v@[i as int]));
        norm_stmt_for_dedupe(&mut v[i], seen);
        i += 1;
        assert(stmts(v@.take(i as int)) =~= before.push(v@[i - 1]@));
    }
    assert(v@.take(i as int) =~= v@);
    assert(stmts(old(v)@).take(i as int) =~= stmts(old(v)@));
}

/// `norm_stmt_for_dedupe` inside a switch arm.
pub fn norm_stmt_for_dedupe_case(c: &mut CaseGroup, seen: &mut Vec<u32>)
    ensures
        final(c)@ == stmt_normed_case(old(c)@, old(seen)@).0,
        final(seen)@ == stmt_normed_case(old(c)@, old(seen)@).1,
    decreases *old(c),
{
    norm_expr_oexpr(&mut c.guard, seen);
    norm_stmt_for_dedupe_vec(&mut c.body, seen);
}

/// `norm_stmt_for_dedupe` over a list, in order.
#[verifier::loop_isolation(false)]
pub fn norm_stmt_for_dedupe_cases(v: &mut Vec<CaseGroup>, seen: &mut Vec<u32>)
    ensures
        case_groups(final(v)@) == stmt_normed_cases(case_groups(old(v)@), old(seen)@).0,
        final(seen)@ == stmt_normed_cases(case_groups(old(v)@), old(seen)@).1,
    decreases *old(v),
{
    let mut i: usize = 0;
    assert(case_groups(v@.take(0)) =~= seq![]);
    while i < v.len()
        invariant
            i <= v.len(),
            v.len() == old(v).len(),
            case_groups(v@.take(i as int)) == stmt_normed_cases(
                case_groups(old(v)@).take(i as int),
                old(seen)@,
            ).0,
            seen@ == stmt_normed_cases(case_groups(old(v)@).take(i as int), old(seen)@).1,
            forall|j: int| i <= j < v.len() ==> #[trigger] v@[j] == old(v)@[j],
        decreases v.len() - i,
    {
        let ghost before = case_groups(v@.take(i as int));
        let ghost done = case_groups(old(v)@).take(i + 1);
        assert(done.drop_last() =~= case_groups(old(v)@).take(i as int));
        assert(done.last() == v@[i as int]@);
        assert(decreases_to!(*old(v) => v@[i as int]));
        norm_stmt_for_dedupe_case(&mut v[i], seen);
        i += 1;
        assert(case_groups(v@.take(i as int)) =~= before.push(v@[i - 1]@));
    }
    assert(v@.take(i as int) =~= v@);
    assert(case_groups(old(v)@).take(i as int) =~= case_groups(old(v)@));
}

/// `norm_stmt_for_dedupe` inside a catch clause.
pub fn norm_stmt_for_dedupe_catch(c: &mut Catch, seen: &mut Vec<u32>)
    ensures
        final(c)@ == stmt_normed_catch(old(c)@, old(seen)@).0,
        final(seen)@ == stmt_normed_catch(old(c)@, old(seen)@).1,
    decreases *old(c),
{
    c.var = bind(c.var, seen);
    c.var_name = None;
    norm_stmt_for_dedupe(&mut c.body, seen);
}

/// `norm_stmt_for_dedupe` over a list, in order.
#[verifier::loop_isolation(false)]
pub fn norm_stmt_for_dedupe_catches(v: &mut Vec<Catch>, seen: &mut Vec<u32>)
    ensures
        catch_list(final(v)@) == stmt_normed_catches(catch_list(old(v)@), old(seen)@).0,
        final(seen)@ == stmt_normed_catches(catch_list(old(v)@), old(seen)@).1,
    decreases *old(v),
{
    let mut i: usize = 0;
    assert(catch_list(v@.take(0)) =~= seq![]);
    while i < v.len()
        invariant
            i <= v.len(),
            v.len() == old(v).len(),
            catch_list(v@.take(i as int)) == stmt_normed_catches(
                catch_list(old(v)@).take(i as int),
                old(seen)@,
            ).0,
            seen@ == stmt_normed_catches(catch_list(old(v)@).take(i as int), old(seen)@).1,
            forall|j: int| i <= j < v.len() ==> #[trigger] v@[j] == old(v)@[j],
        decreases v.len() - i,
    {
        let ghost before = catch_list(v@.take(i as int));
        let ghost done = catch_list(old(v)@).take(i + 1);
        assert(done.drop_last() =~= catch_list(old(v)@).take(i as int));
        assert(done.last() == v@[i as int]@);
        assert(decreases_to!(*old(v) => v@[i as int]));
        norm_stmt_for_dedupe_catch(&mut v[i], seen);
        i += 1;
        assert(catch_list(v@.take(i as int)) =~= before.push(v@[i - 1]@));
    }
    assert(v@.take(i as int) =~= v@);
    assert(catch_list(old(v)@).take(i as int) =~= catch_list(old(v)@));
}

// ---------------------------------------------------------------------
// Rethrows at the end of a handler.

/// The variable that every way through `s` ends by throwing.
pub open spec fn rethrown(s: StmtV) -> Option<u32>
    decreases s,
{
    match s {
        StmtV::Throw(e) => as_local(e),
        StmtV::Block(v) => if v.len() > 0 {
            rethrown(v.last())
        } else {
            None
        },
        StmtV::If { then_stmt, else_stmt, .. } => match else_stmt {
            Some(e) => match (rethrown(*then_stmt), rethrown(*e)) {
                (Some(a), Some(b)) => if a == b {
                    Some(a)
                } else {
                    None
                },
                _ => None,
            },
            None => None,
        },
        _ => None,
    }
}

/// The variable that every way through `s` ends by throwing.
pub fn trailing_rethrow_var(s: &Stmt) -> (r: Option<u32>)
    ensures
        r == rethrown(s@),
    decreases s,
{
    proof {
        reveal_with_fuel(Stmt::view, 2);
        reveal_with_fuel(opt_stmt, 2);
    }
    match s {
        Stmt::Throw(e) => local_var(e),
        Stmt::Block(v) => {
            assert(stmts(v@).len() == v@.len());
            if v.len() == 0 {
                return None;
            }
            assert(decreases_to!(v => v@[v@.len() - 1]));
            assert(stmts(v@).last() == v@[v@.len() - 1]@);
            trailing_rethrow_var(&v[v.len() - 1])
        },
        Stmt::If { then_stmt, else_stmt, .. } => match else_stmt {
            Some(e) => match (trailing_rethrow_var(then_stmt), trailing_rethrow_var(e)) {
                (Some(a), Some(b)) => if a == b {
                    Some(a)
                } else {
                    None
                },
                _ => None,
            },
            None => None,
        },
        _ => None,
    }
}

/// `s` throws `rv`.
pub open spec fn throws_var(s: StmtV, rv: u32) -> bool {
    s matches StmtV::Throw(e) && as_local(e) == Some(rv)
}

/// Whether `s` throws `rv`.
fn is_throw_of(s: &Stmt, rv: u32) -> (r: bool)
    ensures
        r == throws_var(s@, rv),
{
    match s {
        Stmt::Throw(e) => is_local(e, rv),
        _ => false,
    }
}

/// Length of `v` without the throws of `rv` at its end.
pub open spec fn unthrown_len(v: Seq<StmtV>, rv: u32) -> nat
    decreases v.len(),
{
    if v.len() > 0 && throws_var(v.last(), rv) {
        unthrown_len(v.drop_last(), rv)
    } else {
        v.len()
    }
}

/// `s` without the throws of `rv` at its tails.
pub open spec fn rethrow_removed(s: StmtV, rv: u32) -> StmtV
    decreases s,
{
    match s {
        StmtV::Throw(e) => if as_local(e) == Some(rv) {
            empty_block()
        } else {
            s
        },
        StmtV::Block(v) => {
            let n = unthrown_len(v, rv) as int;
            if 0 < n <= v.len() {
                StmtV::Block(v.take(n - 1).push(rethrow_removed(v[n - 1], rv)))
            } else {
                StmtV::Block(seq![])
            }
        },
        StmtV::If { cond, then_stmt, else_stmt } => StmtV::If {
            cond,
            then_stmt: Box::new(rethrow_removed(*then_stmt, rv)),
            else_stmt: rethrow_removed_opt(else_stmt, rv),
        },
        _ => s,
    }
}

/// [`rethrow_removed`] where there is a statement.
pub open spec fn rethrow_removed_opt(o: Option<Box<StmtV>>, rv: u32) -> Option<Box<StmtV>>
    decreases o,
{
    match o {
        Some(s) => Some(Box::new(rethrow_removed(*s, rv))),
        None => None,
    }
}

/// Removes the throws of `rv` at the tails of `s`.
pub fn remove_trailing_rethrow_stmt(s: &mut Stmt, rv: u32)
    ensures
        final(s)@ == rethrow_removed(old(s)@, rv),
    decreases *old(s),
{
    match s {
        Stmt::Throw(e) => {
            if is_local(e, rv) {
                *s = no_stmt();
            }
        },
        Stmt::Block(v) => remove_trailing_rethrow_vec(v, rv),
        Stmt::If { then_stmt, else_stmt, .. } => {
            remove_trailing_rethrow_stmt(then_stmt, rv);
            remove_trailing_rethrow_opt(else_stmt, rv);
        },
        _ => {},
    }
}

/// `remove_trailing_rethrow_stmt` where there is a statement.
fn remove_trailing_rethrow_opt(o: &mut Option<Box<Stmt>>, rv: u32)
    ensures
        opt_stmt(*final(o)) == rethrow_removed_opt(opt_stmt(*old(o)), rv),
    decreases *old(o),
{
    if let Some(s) = o {
        remove_trailing_rethrow_stmt(s, rv);
    }
}

/// `remove_trailing_rethrow_stmt` on the statements of a block.
#[verifier::loop_isolation(false)]
fn remove_trailing_rethrow_vec(v: &mut Vec<Stmt>, rv: u32)
    ensures
        StmtV::Block(stmts(final(v)@)) == rethrow_removed(StmtV::Block(stmts(old(v)@)), rv),
    decreases *old(v),
{
    let ghost all = stmts(v@);
    assert(all.take(v@.len() as int) =~= all);
    while v.len() > 0 && is_throw_of(&v[v.len() - 1], rv)
        invariant
            v.len() <= old(v).len(),
            v@ == old(v)@.take(v.len() as int),
            unthrown_len(all, rv) == unthrown_len(all.take(v.len() as int), rv),
        decreases v.len(),
    {
        let ghost n = v.len() as int;
        assert(all.take(n).drop_last() =~= all.take(n - 1));
        assert(all.take(n).last() == v@[n - 1]@);
        v.pop();
        assert(v@ =~= old(v)@.take(n - 1));
    }
    let ghost n = v.len() as int;
    if v.len() > 0 {
        assert(all.take(n).last() == v@[n - 1]@);
        assert(decreases_to!(*old(v) => old(v)@[n - 1]));
        let i = v.len() - 1;
        remove_trailing_rethrow_stmt(&mut v[i], rv);
        assert(stmts(v@) =~= all.take(n - 1).push(rethrow_removed(all[n - 1], rv)));
    } else {
        assert(stmts(v@) =~= seq![]);
    }
}

/// [`rethrow_removed`] over a list.
pub open spec fn rethrow_removed_all(v: Seq<StmtV>, rv: u32) -> Seq<StmtV> {
    Seq::new(v.len(), |i: int| rethrow_removed(v[i], rv))
}

/// `v` without the throws at its end.
pub open spec fn throws_trimmed(v: Seq<StmtV>) -> Seq<StmtV>
    decreases v.len(),
{
    if v.len() > 0 && v.last() is Throw {
        throws_trimmed(v.drop_last())
    } else {
        v
    }
}

/// Drops the throws at the end of `v`.
#[verifier::loop_isolation(false)]
pub fn remove_trailing_throw(v: &mut Vec<Stmt>)
    ensures
        stmts(final(v)@) == throws_trimmed(stmts(old(v)@)),
{
    while v.len() > 0 && matches!(&v[v.len() - 1], Stmt::Throw(_))
        invariant
            throws_trimmed(stmts(v@)) == throws_trimmed(stmts(old(v)@)),
        decreases v.len(),
    {
        let ghost before = stmts(v@);
        assert(before.last() == v@[v@.len() - 1]@);
        v.pop();
        assert(stmts(v@) =~= before.drop_last());
    }
    if v.len() > 0 {
        assert(stmts(v@).last() == v@[v@.len() - 1]@);
    }
}

// ---------------------------------------------------------------------
// Copies of a `finally` body.

/// The statements of `v` from `start` on begin with those of `fin`.
pub open spec fn copy_at(v: Seq<StmtV>, start: int, fin: Seq<StmtV>) -> bool {
    &&& 0 <= start
    &&& start + fin.len() <= v.len()
    &&& forall|i: int| 0 <= i < fin.len() ==> same_stmt(#[trigger] v[start + i], fin[i])
}

/// Whether the statements of `v` from `start` on begin with those of `fin`.
#[verifier::loop_isolation(false)]
fn has_copy(v: &Vec<Stmt>, start: usize, fin: &Vec<Stmt>) -> (r: bool)
    requires
        start + fin.len() <= v.len(),
    ensures
        r == copy_at(stmts(v@), start as int, stmts(fin@)),
{
    let ghost all = stmts(v@);
    let ghost f = stmts(fin@);
    let mut i: usize = 0;
    while i < fin.len()
        invariant
            i <= fin.len(),
            forall|j: int| 0 <= j < i ==> same_stmt(#[trigger] all[start + j], f[j]),
        decreases fin.len() - i,
    {
        assert(all[start + i] == v@[start + i]@);
        assert(f[i as int] == fin@[i as int]@);
        if !stmt_eq(&v[start + i], &fin[i]) {
            assert(!copy_at(all, start as int, f));
            return false;
        }
        i += 1;
    }
    true
}

/// The statements of a block without a copy of `fin` at its end, or before a final
/// `return` or `throw`; else the last statement is looked into.
pub open spec fn copy_stripped_list(v: Seq<StmtV>, fin: Seq<StmtV>) -> Seq<StmtV>
    decreases v,
{
    if fin.len() == 0 || v.len() == 0 {
        v
    } else if copy_at(v, v.len() - fin.len(), fin) {
        v.take(v.len() - fin.len())
    } else if (v.last() is Return || v.last() is Throw)
        && copy_at(v, v.len() - 1 - fin.len(), fin) {
        v.take(v.len() - 1 - fin.len()).push(v.last())
    } else {
        v.drop_last().push(copies_stripped(v.last(), fin))
    }
}

/// `s` without a copy of `fin` at each of its tails.
pub open spec fn copies_stripped(s: StmtV, fin: Seq<StmtV>) -> StmtV
    decreases s,
{
    match s {
        StmtV::Block(items) => StmtV::Block(copy_stripped_list(items, fin)),
        StmtV::If { cond, then_stmt, else_stmt } => StmtV::If {
            cond,
            then_stmt: Box::new(copies_stripped(*then_stmt, fin)),
            else_stmt: copies_stripped_opt(else_stmt, fin),
        },
        StmtV::While { cond, body } => StmtV::While {
            cond,
            body: Box::new(copies_stripped(*body, fin)),
        },
        StmtV::DoWhile { body, cond } => StmtV::DoWhile {
            body: Box::new(copies_stripped(*body, fin)),
            cond,
        },
        StmtV::For { init, cond, update, body } => StmtV::For {
            init,
            cond,
            update,
            body: Box::new(copies_stripped(*body, fin)),
        },
        StmtV::ForEach { var, iterable, is_array, body } => StmtV::ForEach {
            var,
            iterable,
            is_array,
            body: Box::new(copies_stripped(*body, fin)),
        },
        StmtV::Switch { selector, cases, default, on_string } => StmtV::Switch {
            selector,
            cases: copies_stripped_cases(cases, fin),
            default: copies_stripped_opt(default, fin),
            on_string,
        },
        StmtV::Try { body, catches, finally } => StmtV::Try {
            body: Box::new(copies_stripped(*body, fin)),
            catches: copies_stripped_catches(catches, fin),
            finally: copies_stripped_opt(finally, fin),
        },
        StmtV::TryWithResources { resources, body, catches, finally } => StmtV::TryWithResources {
            resources,
            body: Box::new(copies_stripped(*body, fin)),
            catches: copies_stripped_catches(catches, fin),
            finally: copies_stripped_opt(finally, fin),
        },
        StmtV::Synchronized { lock, body } => StmtV::Synchronized {
            lock,
            body: Box::new(copies_stripped(*body, fin)),
        },
        StmtV::Labeled { label, body } => StmtV::Labeled {
            label,
            body: Box::new(copies_stripped(*body, fin)),
        },
        _ => s,
    }
}

/// [`copies_stripped`] where there is a value.
pub open spec fn copies_stripped_opt(o: Option<Box<StmtV>>, fin: Seq<StmtV>) -> Option<Box<StmtV>>
    decreases o,
{
    match o {
        Some(x) => Some(Box::new(copies_stripped(*x, fin))),
        None => None,
    }
}

/// [`copies_stripped`] inside a switch arm.
pub open spec fn copies_stripped_case(c: CaseGroupV, fin: Seq<StmtV>) -> CaseGroupV
    decreases c,
{
    CaseGroupV { body: copies_stripped_seq(c.body, fin), ..c }
}

/// [`copies_stripped`] over a list.
pub open spec fn copies_stripped_cases(v: Seq<CaseGroupV>, fin: Seq<StmtV>) -> Seq<CaseGroupV>
    decreases v,
{
    Seq::new(
        v.len(),
        |i: int| if 0 <= i < v.len() { copies_stripped_case(v[i], fin) } else { arbitrary() },
    )
}

/// [`copies_stripped`] inside a catch clause.
pub open spec fn copies_stripped_catch(c: CatchV, fin: Seq<StmtV>) -> CatchV
    decreases c,
{
    CatchV { body: Box::new(copies_stripped(*c.body, fin)), ..c }
}

/// [`copies_stripped`] over a list.
pub open spec fn copies_stripped_catches(v: Seq<CatchV>, fin: Seq<StmtV>) -> Seq<CatchV>
    decreases v,
{
    Seq::new(
        v.len(),
        |i: int| if 0 <= i < v.len() { copies_stripped_catch(v[i], fin) } else { arbitrary() },
    )
}

/// [`copies_stripped`] over a list.
pub open spec fn copies_stripped_seq(v: Seq<StmtV>, fin: Seq<StmtV>) -> Seq<StmtV>
    decreases v,
{
    Seq::new(
        v.len(),
        |i: int| if 0 <= i < v.len() { copies_stripped(v[i], fin) } else { arbitrary() },
    )
}

/// Removes a copy of `fin` at each tail of `s`.
pub fn strip_trailing_copies(s: &mut Stmt, fin: &Vec<Stmt>)
    ensures
        final(s)@ == copies_stripped(old(s)@, stmts(fin@)),
    decreases *old(s),
{
    match s {
        Stmt::Block(items) => strip_copy_list(items, fin),
        Stmt::If { then_stmt, else_stmt, .. } => {
            strip_trailing_copies(then_stmt, fin);
            strip_trailing_copies_opt(else_stmt, fin);
        },
        Stmt::While { body, .. } => { strip_trailing_copies(body, fin); },
        Stmt::DoWhile { body, .. } => { strip_trailing_copies(body, fin); },
        Stmt::For { body, .. } => { strip_trailing_copies(body, fin); },
        Stmt::ForEach { body, .. } => { strip_trailing_copies(body, fin); },
        Stmt::Switch { cases, default, .. } => {
            strip_trailing_copies_cases(cases, fin);
            strip_trailing_copies_opt(default, fin);
        },
        Stmt::Try { body, catches, finally } => {
            strip_trailing_copies(body, fin);
            strip_trailing_copies_catches(catches, fin);
            strip_trailing_copies_opt(finally, fin);
        },
        Stmt::TryWithResources { body, catches, finally, .. } => {
            strip_trailing_copies(body, fin);
            strip_trailing_copies_catches(catches, fin);
            strip_trailing_copies_opt(finally, fin);
        },
        Stmt::Synchronized { body, .. } => { strip_trailing_copies(body, fin); },
        Stmt::Labeled { body, .. } => { strip_trailing_copies(body, fin); },
        _ => {},
    }
}

/// `strip_trailing_copies` where there is a value.
pub fn strip_trailing_copies_opt(o: &mut Option<Box<Stmt>>, fin: &Vec<Stmt>)
    ensures
        opt_stmt(*final(o)) == copies_stripped_opt(opt_stmt(*old(o)), stmts(fin@)),
    decreases *old(o),
{
    if let Some(x) = o {
        strip_trailing_copies(x, fin);
    }
}

/// `strip_trailing_copies` inside a switch arm.
pub fn strip_trailing_copies_case(c: &mut CaseGroup, fin: &Vec<Stmt>)
    ensures
        final(c)@ == copies_stripped_case(old(c)@, stmts(fin@)),
    decreases *old(c),
{
    strip_trailing_copies_vec(&mut c.body, fin);
}

/// `strip_trailing_copies` over a list.
#[verifier::loop_isolation(false)]
pub fn strip_trailing_copies_cases(v: &mut Vec<CaseGroup>, fin: &Vec<Stmt>)
    ensures
        case_groups(final(v)@) == copies_stripped_cases(case_groups(old(v)@), stmts(fin@)),
    decreases *old(v),
{
    let mut i: usize = 0;
    while i < v.len()
        invariant
            i <= v.len(),
            v.len() == old(v).len(),
            forall|j: int|
                0 <= j < i
                    ==> (#[trigger] v@[j])@ == copies_stripped_case(old(v)@[j]@, stmts(fin@)),
            forall|j: int| i <= j < v.len() ==> #[trigger] v@[j] == old(v)@[j],
        decreases v.len() - i,
    {
        assert(decreases_to!(*old(v) => v@[i as int]));
        strip_trailing_copies_case(&mut v[i], fin);
        i += 1;
    }
    assert(case_groups(v@) =~= copies_stripped_cases(case_groups(old(v)@), stmts(fin@)));
}

/// `strip_trailing_copies` inside a catch clause.
pub fn strip_trailing_copies_catch(c: &mut Catch, fin: &Vec<Stmt>)
    ensures
        final(c)@ == copies_stripped_catch(old(c)@, stmts(fin@)),
    decreases *old(c),
{
    strip_trailing_copies(&mut c.body, fin);
}

/// `strip_trailing_copies` over a list.
#[verifier::loop_isolation(false)]
pub fn strip_trailing_copies_catches(v: &mut Vec<Catch>, fin: &Vec<Stmt>)
    ensures
        catch_list(final(v)@) == copies_stripped_catches(catch_list(old(v)@), stmts(fin@)),
    decreases *old(v),
{
    let mut i: usize = 0;
    while i < v.len()
        invariant
            i <= v.len(),
            v.len() == old(v).len(),
            forall|j: int|
                0 <= j < i
                    ==> (#[trigger] v@[j])@ == copies_stripped_catch(old(v)@[j]@, stmts(fin@)),
            forall|j: int| i <= j < v.len() ==> #[trigger] v@[j] == old(v)@[j],
        decreases v.len() - i,
    {
        assert(decreases_to!(*old(v) => v@[i as int]));
        strip_trailing_copies_catch(&mut v[i], fin);
        i += 1;
    }
    assert(catch_list(v@) =~= copies_stripped_catches(catch_list(old(v)@), stmts(fin@)));
}

/// `strip_trailing_copies` over a list.
#[verifier::loop_isolation(false)]
pub fn strip_trailing_copies_vec(v: &mut Vec<Stmt>, fin: &Vec<Stmt>)
    ensures
        stmts(final(v)@) == copies_stripped_seq(stmts(old(v)@), stmts(fin@)),
    decreases *old(v),
{
    let mut i: usize = 0;
    while i < v.len()
        invariant
            i <= v.len(),
            v.len() == old(v).len(),
            forall|j: int|
                0 <= j < i ==> (#[trigger] v@[j])@ == copies_stripped(old(v)@[j]@, stmts(fin@)),
            forall|j: int| i <= j < v.len() ==> #[trigger] v@[j] == old(v)@[j],
        decreases v.len() - i,
    {
        assert(decreases_to!(*old(v) => v@[i as int]));
        strip_trailing_copies(&mut v[i], fin);
        i += 1;
    }
    assert(stmts(v@) =~= copies_stripped_seq(stmts(old(v)@), stmts(fin@)));
}

/// Removes a copy of `fin` from the end of a list.
fn strip_copy_list(v: &mut Vec<Stmt>, fin: &Vec<Stmt>)
    ensures
        stmts(final(v)@) == copy_stripped_list(stmts(old(v)@), stmts(fin@)),
    decreases *old(v),
{
    let ghost all = stmts(v@);
    let ghost f = stmts(fin@);
    assert(all.len() == v@.len() && f.len() == fin@.len());
    if fin.len() == 0 || v.len() == 0 {
        return ;
    }
    let n = v.len();
    assert(all.last() == v@[n - 1]@);
    if n >= fin.len() {
        if has_copy(v, n - fin.len(), fin) {
            v.truncate(n - fin.len());
            assert(stmts(v@) =~= all.take(n - fin.len()));
            return ;
        }
    }
    if matches!(&v[n - 1], Stmt::Return(_) | Stmt::Throw(_)) && n > fin.len() {
        let start = n - 1 - fin.len();
        if has_copy(v, start, fin) {
            let tail = v.remove(n - 1);
            let ghost t = tail@;
            v.truncate(start);
            v.push(tail);
            assert(stmts(v@) =~= all.take(start as int).push(t));
            return ;
        }
    }
    assert(decreases_to!(*old(v) => v@[n - 1]));
    strip_trailing_copies(&mut v[n - 1], fin);
    assert(stmts(v@) =~= all.drop_last().push(copies_stripped(all.last(), f)));
}

/// The statements of a catch-all handler that rethrows `rv`, as a `finally` body:
/// without the rethrows and without the store of the exception at its head.
pub open spec fn finally_list(handler: StmtV, rv: u32) -> Seq<StmtV> {
    let v = rethrow_removed_all(throws_trimmed(as_list(handler)), rv);
    let w = if v.len() > 0 && assigned_local(v[0]) == Some(rv) {
        v.skip(1)
    } else {
        v
    };
    if w.len() > 0 && w[0] is LocalDef && w[0]->LocalDef_var == rv {
        w.skip(1)
    } else {
        w
    }
}

/// The variable that the last clause rethrows, where it is a catch-all.
pub open spec fn finally_var(catches: Seq<CatchV>, finally: Option<Box<StmtV>>) -> Option<u32> {
    if finally is None && catches.len() > 0 && catches.last().exc.len() == 0 {
        rethrown(*catches.last().body)
    } else {
        None
    }
}

/// A `try` whose last clause is a catch-all that rethrows becomes one with a
/// `finally`; the copies of that body elsewhere go.
pub open spec fn finally_made(
    body: StmtV,
    catches: Seq<CatchV>,
    finally: Option<Box<StmtV>>,
) -> (StmtV, Seq<CatchV>, Option<Box<StmtV>>) {
    match finally_var(catches, finally) {
        Some(rv) => {
            let fin = finally_list(*catches.last().body, rv);
            (
                copies_stripped(body, fin),
                copies_stripped_catches(catches.drop_last(), fin),
                Some(Box::new(StmtV::Block(fin))),
            )
        },
        None => (body, catches, finally),
    }
}

/// The `finally` body of a handler.
#[verifier::loop_isolation(false)]
fn take_finally(handler: Stmt, rv: u32) -> (r: Vec<Stmt>)
    ensures
        stmts(r@) == finally_list(handler@, rv),
{
    let mut fin = into_vec(handler);
    remove_trailing_throw(&mut fin);
    let ghost trimmed = stmts(fin@);
    let mut i: usize = 0;
    while i < fin.len()
        invariant
            i <= fin.len(),
            fin.len() == trimmed.len(),
            forall|j: int| 0 <= j < i ==> (#[trigger] fin@[j])@ == rethrow_removed(trimmed[j], rv),
            forall|j: int| i <= j < fin.len() ==> (#[trigger] fin@[j])@ == trimmed[j],
        decreases fin.len() - i,
    {
        remove_trailing_rethrow_stmt(&mut fin[i], rv);
        i += 1;
    }
    assert(stmts(fin@) =~= rethrow_removed_all(trimmed, rv));
    if fin.len() > 0 {
        let ghost before = fin@;
        assert(stmts(before)[0] == before[0]@);
        let stores = match assigned(&fin[0]) {
            Some(v) => v == rv,
            None => false,
        };
        if stores {
            fin.remove(0);
            assert(fin@ =~= before.skip(1));
            assert(stmts(fin@) =~= stmts(before).skip(1));
        }
    }
    if fin.len() > 0 {
        let ghost before = fin@;
        assert(stmts(before)[0] == before[0]@);
        let declares = match &fin[0] {
            Stmt::LocalDef { var, .. } => *var == rv,
            _ => false,
        };
        if declares {
            fin.remove(0);
            assert(fin@ =~= before.skip(1));
            assert(stmts(fin@) =~= stmts(before).skip(1));
        }
    }
    fin
}

/// Makes the `finally` of a `try`.
fn make_finally(body: &mut Stmt, catches: &mut Vec<Catch>, finally: &mut Option<Box<Stmt>>)
    ensures
        (final(body)@, catch_list(final(catches)@), opt_stmt(*final(finally))) == finally_made(
            old(body)@,
            catch_list(old(catches)@),
            opt_stmt(*old(finally)),
        ),
{
    assert(opt_stmt(*finally) is None <==> *finally is None);
    assert(catch_list(catches@).len() == catches@.len());
    if finally.is_some() || catches.len() == 0 {
        return ;
    }
    let ghost all = catch_list(catches@);
    let n = catches.len();
    assert(all.last() == catches@[n - 1]@);
    assert(strs(catches@[n - 1].exc@).len() == catches@[n - 1].exc@.len());
    if catches[n - 1].exc.len() != 0 {
        return ;
    }
    let rv = match trailing_rethrow_var(&catches[n - 1].body) {
        Some(rv) => rv,
        None => return ,
    };
    if let Some(c) = catches.pop() {
        assert(c@ == all.last());
        assert(catch_list(catches@) =~= all.drop_last());
        let fin = take_finally(*c.body, rv);
        strip_trailing_copies(body, &fin);
        strip_trailing_copies_catches(catches, &fin);
        *finally = Some(Box::new(Stmt::Block(fin)));
    }
}

// ---------------------------------------------------------------------
// Copies after the `try`.

/// The `finally` body of a `try`.
pub open spec fn finally_of(s: StmtV) -> Option<Seq<StmtV>> {
    match s {
        StmtV::Try { finally, .. } => match finally {
            Some(f) => Some(as_list(*f)),
            None => None,
        },
        _ => None,
    }
}

/// Two lists of variables agree where each variable is the same in both, or is
/// declared by the statements on its side.
pub open spec fn vars_agree(a: Seq<u32>, b: Seq<u32>, fin: Seq<StmtV>, copy: Seq<StmtV>) -> bool {
    &&& a.len() == b.len()
    &&& forall|i: int|
        0 <= i < a.len() ==> (#[trigger] a[i] == b[i] || (declares_seq(fin, a[i])
            && declares_seq(copy, b[i])))
}

/// `copy` is `fin` up to the names of the variables that each declares.
pub open spec fn is_copy(copy: Seq<StmtV>, fin: Seq<StmtV>) -> bool {
    let (a, seen_a) = stmt_normed_seq(fin, seq![]);
    let (b, seen_b) = stmt_normed_seq(copy, seq![]);
    same_stmts(b, a) && vars_agree(seen_a, seen_b, fin, copy)
}

/// The first of `rest` is a `try`, and the statements after it are its `finally`
/// body once more.
pub open spec fn copy_follows(rest: Seq<StmtV>, fin: Seq<StmtV>) -> bool {
    &&& fin.len() > 0
    &&& rest.len() > fin.len()
    &&& is_copy(rest.subrange(1, 1 + fin.len() as int), fin)
}

/// A list without the copies of `finally` bodies after their `try`s.
pub open spec fn copies_dropped(rest: Seq<StmtV>) -> Seq<StmtV>
    decreases rest.len(),
{
    if rest.len() == 0 {
        seq![]
    } else {
        match finally_of(rest[0]) {
            Some(fin) => if copy_follows(rest, fin) {
                seq![rest[0]] + copies_dropped(rest.skip(1 + fin.len() as int))
            } else {
                seq![rest[0]] + copies_dropped(rest.skip(1))
            },
            None => seq![rest[0]] + copies_dropped(rest.skip(1)),
        }
    }
}

/// Number of statements after `v[i]` that copy its `finally` body.
#[verifier::loop_isolation(false)]
fn copies_after(v: &Vec<Stmt>, i: usize) -> (n: usize)
    requires
        i < v.len(),
    ensures
        match finally_of(v@[i as int]@) {
            Some(fin) => if copy_follows(stmts(v@).skip(i as int), fin) {
                n == fin.len()
            } else {
                n == 0
            },
            None => n == 0,
        },
        i + n < v.len(),
{
    proof {
        reveal_with_fuel(Stmt::view, 2);
        reveal_with_fuel(opt_stmt, 2);
    }
    let ghost rest = stmts(v@).skip(i as int);
    let fin = match &v[i] {
        Stmt::Try { finally: Some(f), .. } => into_vec((**f).clone()),
        _ => return 0,
    };
    let ghost f = stmts(fin@);
    assert(f.len() == fin@.len());
    let n = fin.len();
    if n == 0 || v.len() - i <= n {
        return 0;
    }
    let mut copy: Vec<Stmt> = Vec::new();
    let mut k: usize = 0;
    while k < n
        invariant
            k <= n,
            copy.len() == k,
            forall|j: int| 0 <= j < k ==> (#[trigger] copy@[j])@ == v@[i + 1 + j]@,
        decreases n - k,
    {
        copy.push(v[i + 1 + k].clone());
        k += 1;
    }
    assert(stmts(copy@) =~= rest.subrange(1, 1 + f.len() as int));
    if copies(copy, fin) {
        n
    } else {
        0
    }
}

/// Whether `copy` is `fin` up to the names of the variables that each declares.
#[verifier::loop_isolation(false)]
fn copies(copy: Vec<Stmt>, fin: Vec<Stmt>) -> (r: bool)
    ensures
        r == is_copy(stmts(copy@), stmts(fin@)),
{
    let ghost c = stmts(copy@);
    let ghost f = stmts(fin@);
    let mut own_a: HashSet<u32> = HashSet::new();
    let mut own_b: HashSet<u32> = HashSet::new();
    collect_decl_vec(&fin, &mut own_a);
    collect_decl_vec(&copy, &mut own_b);
    let mut normed = fin;
    let mut cand = copy;
    let mut a: Vec<u32> = Vec::new();
    let mut b: Vec<u32> = Vec::new();
    assert(a@ =~= seq![]);
    assert(b@ =~= seq![]);
    norm_stmt_for_dedupe_vec(&mut normed, &mut a);
    norm_stmt_for_dedupe_vec(&mut cand, &mut b);
    if !stmts_eq(&cand, &normed) || a.len() != b.len() {
        return false;
    }
    let mut i: usize = 0;
    while i < a.len()
        invariant
            i <= a.len(),
            a.len() == b.len(),
            forall|j: int|
                0 <= j < i ==> (#[trigger] a@[j] == b@[j] || (declares_seq(f, a@[j])
                    && declares_seq(c, b@[j]))),
        decreases a.len() - i,
    {
        if a[i] != b[i] && !(own_a.contains(&a[i]) && own_b.contains(&b[i])) {
            assert(!vars_agree(a@, b@, f, c));
            return false;
        }
        i += 1;
    }
    true
}

/// Drops the copies of `finally` bodies after their `try`s.
#[verifier::loop_isolation(false)]
#[verifier::spinoff_prover]
fn drop_copies(v: &mut Vec<Stmt>)
    ensures
        stmts(final(v)@) == copies_dropped(stmts(old(v)@)),
{
    let ghost goal = copies_dropped(stmts(v@));
    let mut i: usize = 0;
    assert(v@.skip(0) =~= v@);
    assert(stmts(v@.take(0)) + goal =~= goal);
    while i < v.len()
        invariant
            i <= v.len(),
            stmts(v@.take(i as int)) + copies_dropped(stmts(v@.skip(i as int))) == goal,
        decreases v.len() - i,
    {
        let ghost rest = stmts(v@.skip(i as int));
        let ghost done = stmts(v@.take(i as int));
        assert(stmts(v@).skip(i as int) =~= rest);
        assert(rest[0] == v@[i as int]@);
        let n = copies_after(v, i);
        let ghost before = v@;
        remove_range(v, i + 1, n);
        assert(stmts(v@.take(i + 1)) =~= done.push(rest[0]));
        assert(v@.skip(i + 1) =~= before.skip(i + 1 + n));
        assert(stmts(v@.skip(i + 1)) =~= rest.skip(1 + n as int));
        assert(done
            + (seq![rest[0]] + copies_dropped(rest.skip(1 + n as int))) =~= done.push(rest[0])
            + copies_dropped(rest.skip(1 + n as int)));
        i += 1;
    }
    assert(v@.take(i as int) =~= v@);
    assert(stmts(v@.skip(i as int)) =~= seq![]);
    assert(stmts(v@) + Seq::<StmtV>::empty() =~= stmts(v@));
}

/// Removes `n` statements from `at` on.
#[verifier::loop_isolation(false)]
pub fn remove_range(v: &mut Vec<Stmt>, at: usize, n: usize)
    requires
        at + n <= old(v).len(),
    ensures
        final(v)@ == old(v)@.take(at as int) + old(v)@.skip(at + n),
{
    let mut k: usize = 0;
    while k < n
        invariant
            k <= n,
            v@ == old(v)@.take(at as int) + old(v)@.skip(at + k),
        decreases n - k,
    {
        v.remove(at);
        k += 1;
        assert(v@ =~= old(v)@.take(at as int) + old(v)@.skip(at + k));
    }
    assert(n == 0 ==> v@ =~= old(v)@.take(at as int) + old(v)@.skip(at + n));
}

/// `s` with catch-alls that rethrow turned into `finally` blocks, and the copies of
/// those removed.
pub open spec fn finally_deduped(s: StmtV) -> StmtV
    decreases s,
{
    match s {
        StmtV::Block(items) => StmtV::Block(copies_dropped(finally_deduped_seq(items))),
        StmtV::If { cond, then_stmt, else_stmt } => StmtV::If {
            cond,
            then_stmt: Box::new(finally_deduped(*then_stmt)),
            else_stmt: finally_deduped_opt(else_stmt),
        },
        StmtV::While { cond, body } => StmtV::While {
            cond,
            body: Box::new(finally_deduped(*body)),
        },
        StmtV::DoWhile { body, cond } => StmtV::DoWhile {
            body: Box::new(finally_deduped(*body)),
            cond,
        },
        StmtV::For { init, cond, update, body } => StmtV::For {
            init: finally_deduped_seq(init),
            cond,
            update,
            body: Box::new(finally_deduped(*body)),
        },
        StmtV::ForEach { var, iterable, is_array, body } => StmtV::ForEach {
            var,
            iterable,
            is_array,
            body: Box::new(finally_deduped(*body)),
        },
        StmtV::Switch { selector, cases, default, on_string } => StmtV::Switch {
            selector,
            cases: finally_deduped_cases(cases),
            default: finally_deduped_opt(default),
            on_string,
        },
        StmtV::Try { body, catches, finally } => {
            let (b, c, f) = finally_made(
                finally_deduped(*body),
                finally_deduped_catches(catches),
                finally_deduped_opt(finally),
            );
            StmtV::Try { body: Box::new(b), catches: c, finally: f }
        },
        StmtV::TryWithResources { resources, body, catches, finally } => {
            let (b, c, f) = finally_made(
                finally_deduped(*body),
                finally_deduped_catches(catches),
                finally_deduped_opt(finally),
            );
            StmtV::TryWithResources {
                resources: finally_deduped_seq(resources),
                body: Box::new(b),
                catches: c,
                finally: f,
            }
        },
        StmtV::Synchronized { lock, body } => StmtV::Synchronized {
            lock,
            body: Box::new(finally_deduped(*body)),
        },
        StmtV::Labeled { label, body } => StmtV::Labeled {
            label,
            body: Box::new(finally_deduped(*body)),
        },
        _ => s,
    }
}

/// [`finally_deduped`] where there is a value.
pub open spec fn finally_deduped_opt(o: Option<Box<StmtV>>) -> Option<Box<StmtV>>
    decreases o,
{
    match o {
        Some(x) => Some(Box::new(finally_deduped(*x))),
        None => None,
    }
}

/// [`finally_deduped`] over a list.
pub open spec fn finally_deduped_seq(v: Seq<StmtV>) -> Seq<StmtV>
    decreases v,
{
    Seq::new(v.len(), |i: int| if 0 <= i < v.len() { finally_deduped(v[i]) } else { arbitrary() })
}

/// [`finally_deduped`] inside a switch arm.
pub open spec fn finally_deduped_case(c: CaseGroupV) -> CaseGroupV
    decreases c,
{
    CaseGroupV { body: finally_deduped_seq(c.body), ..c }
}

/// [`finally_deduped`] over a list.
pub open spec fn finally_deduped_cases(v: Seq<CaseGroupV>) -> Seq<CaseGroupV>
    decreases v,
{
    Seq::new(
        v.len(),
        |i: int| if 0 <= i < v.len() { finally_deduped_case(v[i]) } else { arbitrary() },
    )
}

/// [`finally_deduped`] inside a catch clause.
pub open spec fn finally_deduped_catch(c: CatchV) -> CatchV
    decreases c,
{
    CatchV { body: Box::new(finally_deduped(*c.body)), ..c }
}

/// [`finally_deduped`] over a list.
pub open spec fn finally_deduped_catches(v: Seq<CatchV>) -> Seq<CatchV>
    decreases v,
{
    Seq::new(
        v.len(),
        |i: int| if 0 <= i < v.len() { finally_deduped_catch(v[i]) } else { arbitrary() },
    )
}

/// Turns catch-alls that rethrow into `finally` blocks and removes the copies that
/// javac made of them.
pub fn dedupe_finally(s: &mut Stmt)
    ensures
        final(s)@ == finally_deduped(old(s)@),
    decreases *old(s),
{
    match s {
        Stmt::Block(items) => { dedupe_finally_vec(items); drop_copies(items); },
        Stmt::If { then_stmt, else_stmt, .. } => {
            dedupe_finally(then_stmt);
            dedupe_finally_opt(else_stmt);
        },
        Stmt::While { body, .. } => { dedupe_finally(body); },
        Stmt::DoWhile { body, .. } => { dedupe_finally(body); },
        Stmt::For { init, body, .. } => { dedupe_finally_vec(init); dedupe_finally(body); },
        Stmt::ForEach { body, .. } => { dedupe_finally(body); },
        Stmt::Switch { cases, default, .. } => {
            dedupe_finally_cases(cases);
            dedupe_finally_opt(default);
        },
        Stmt::Try { body, catches, finally } => {
            dedupe_finally(body);
            dedupe_finally_catches(catches);
            dedupe_finally_opt(finally);
            make_finally(body, catches, finally);
        },
        Stmt::TryWithResources { resources, body, catches, finally } => {
            dedupe_finally_vec(resources);
            dedupe_finally(body);
            dedupe_finally_catches(catches);
            dedupe_finally_opt(finally);
            make_finally(body, catches, finally);
        },
        Stmt::Synchronized { body, .. } => { dedupe_finally(body); },
        Stmt::Labeled { body, .. } => { dedupe_finally(body); },
        _ => {},
    }
}

/// `dedupe_finally` where there is a value.
pub fn dedupe_finally_opt(o: &mut Option<Box<Stmt>>)
    ensures
        opt_stmt(*final(o)) == finally_deduped_opt(opt_stmt(*old(o))),
    decreases *old(o),
{
    if let Some(x) = o {
        dedupe_finally(x);
    }
}

/// `dedupe_finally` over a list.
#[verifier::loop_isolation(false)]
pub fn dedupe_finally_vec(v: &mut Vec<Stmt>)
    ensures
        stmts(final(v)@) == finally_deduped_seq(stmts(old(v)@)),
    decreases *old(v),
{
    let mut i: usize = 0;
    while i < v.len()
        invariant
            i <= v.len(),
            v.len() == old(v).len(),
            forall|j: int| 0 <= j < i ==> (#[trigger] v@[j])@ == finally_deduped(old(v)@[j]@),
            forall|j: int| i <= j < v.len() ==> #[trigger] v@[j] == old(v)@[j],
        decreases v.len() - i,
    {
        assert(decreases_to!(*old(v) => v@[i as int]));
        dedupe_finally(&mut v[i]);
        i += 1;
    }
    assert(stmts(v@) =~= finally_deduped_seq(stmts(old(v)@)));
}

/// `dedupe_finally` inside a switch arm.
pub fn dedupe_finally_case(c: &mut CaseGroup)
    ensures
        final(c)@ == finally_deduped_case(old(c)@),
    decreases *old(c),
{
    dedupe_finally_vec(&mut c.body);
}

/// `dedupe_finally` over a list.
#[verifier::loop_isolation(false)]
pub fn dedupe_finally_cases(v: &mut Vec<CaseGroup>)
    ensures
        case_groups(final(v)@) == finally_deduped_cases(case_groups(old(v)@)),
    decreases *old(v),
{
    let mut i: usize = 0;
    while i < v.len()
        invariant
            i <= v.len(),
            v.len() == old(v).len(),
            forall|j: int| 0 <= j < i ==> (#[trigger] v@[j])@ == finally_deduped_case(old(v)@[j]@),
            forall|j: int| i <= j < v.len() ==> #[trigger] v@[j] == old(v)@[j],
        decreases v.len() - i,
    {
        assert(decreases_to!(*old(v) => v@[i as int]));
        dedupe_finally_case(&mut v[i]);
        i += 1;
    }
    assert(case_groups(v@) =~= finally_deduped_cases(case_groups(old(v)@)));
}

/// `dedupe_finally` inside a catch clause.
pub fn dedupe_finally_catch(c: &mut Catch)
    ensures
        final(c)@ == finally_deduped_catch(old(c)@),
    decreases *old(c),
{
    dedupe_finally(&mut c.body);
}

/// `dedupe_finally` over a list.
#[verifier::loop_isolation(false)]
pub fn dedupe_finally_catches(v: &mut Vec<Catch>)
    ensures
        catch_list(final(v)@) == finally_deduped_catches(catch_list(old(v)@)),
    decreases *old(v),
{
    let mut i: usize = 0;
    while i < v.len()
        invariant
            i <= v.len(),
            v.len() == old(v).len(),
            forall|j: int| 0 <= j < i ==> (#[trigger] v@[j])@ == finally_deduped_catch(old(v)@[j]@),
            forall|j: int| i <= j < v.len() ==> #[trigger] v@[j] == old(v)@[j],
        decreases v.len() - i,
    {
        assert(decreases_to!(*old(v) => v@[i as int]));
        dedupe_finally_catch(&mut v[i]);
        i += 1;
    }
    assert(catch_list(v@) =~= finally_deduped_catches(catch_list(old(v)@)));
}

/// Takes the statements out of `s`, leaving an empty block behind.
pub fn stmt_vec_take(s: &mut Stmt) -> (r: Vec<Stmt>)
    ensures
        stmts(r@) == as_list(old(s)@),
        final(s)@ == empty_block(),
{
    into_vec(take_stmt(s))
}

} // verus!
