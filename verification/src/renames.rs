//! What holds of variables that are renamed or replaced.
use crate::expr::{ConcatPartV, ExprV, LambdaExprV};
use crate::rewrite::{
    stmt_var_renamed, stmt_var_renamed_case, stmt_var_renamed_cases, stmt_var_renamed_catch,
    stmt_var_renamed_catches, stmt_var_renamed_opt, stmt_var_renamed_seq, var_renamed,
    var_renamed_captures, var_renamed_exprs, var_renamed_oexpr, var_renamed_oexprs, var_renamed_opt,
    var_renamed_part, var_renamed_parts,
};
use crate::split::{
    redirected, redirected_captures, redirected_exprs, redirected_oexprs, redirected_opt,
    redirected_part, redirected_parts, stands_for,
};
use crate::stack_vars::{
    this_folded, this_folded_captures, this_folded_exprs, this_folded_oexprs, this_folded_opt,
    this_folded_part, this_folded_parts,
};
use crate::stmt::{CaseGroupV, CatchV, StmtV};
use crate::uses::{
    declares, declares_case, declares_cases, declares_catch, declares_catches, declares_opt,
    declares_seq, stmt_uses, stmt_uses_case, stmt_uses_cases, stmt_uses_catch, stmt_uses_catches,
    stmt_uses_opt, stmt_uses_seq, uses_local, uses_local_captures, uses_local_exprs,
    uses_local_oexpr, uses_local_oexprs, uses_local_opt, uses_local_part, uses_local_parts,
};
use vstd::prelude::*;

verus! {

/// A renamed variable does not occur in an expression.
proof fn lemma_gone(e: ExprV, from: u32, to: u32)
    requires
        from != to,
    ensures
        !uses_local(var_renamed(e, from, to), from),
    decreases e,
{
    match e {
        ExprV::New { args, .. } => {
            lemma_gone_exprs(args, from, to);
        },
        ExprV::NewArray { dims, init, .. } => {
            lemma_gone_exprs(dims, from, to);
            lemma_gone_oexprs(init, from, to);
        },
        ExprV::NewMultiArray { dims, .. } => {
            lemma_gone_exprs(dims, from, to);
        },
        ExprV::Field { owner, .. } => {
            lemma_gone_opt(owner, from, to);
        },
        ExprV::Method { owner, args, .. } => {
            lemma_gone_opt(owner, from, to);
            lemma_gone_exprs(args, from, to);
        },
        ExprV::ArrayIndex { array, index } => {
            lemma_gone(*array, from, to);
            lemma_gone(*index, from, to);
        },
        ExprV::Cast { e, .. } => {
            lemma_gone(*e, from, to);
        },
        ExprV::InstanceOf { e, .. } => {
            lemma_gone(*e, from, to);
        },
        ExprV::Un { e, .. } => {
            lemma_gone(*e, from, to);
        },
        ExprV::Bin { l, r, .. } => {
            lemma_gone(*l, from, to);
            lemma_gone(*r, from, to);
        },
        ExprV::Cond { c, t, f } => {
            lemma_gone(*c, from, to);
            lemma_gone(*t, from, to);
            lemma_gone(*f, from, to);
        },
        ExprV::Assign { target, value, .. } => {
            lemma_gone(*target, from, to);
            lemma_gone(*value, from, to);
        },
        ExprV::PreIncDec { e, .. } => {
            lemma_gone(*e, from, to);
        },
        ExprV::PostIncDec { e, .. } => {
            lemma_gone(*e, from, to);
        },
        ExprV::Lambda(l) => {
            lemma_gone_captures(*l, from, to);
        },
        ExprV::StringConcat(parts) => {
            lemma_gone_parts(parts, from, to);
        },
        ExprV::Invokedynamic { args, .. } => {
            lemma_gone_exprs(args, from, to);
        },
        ExprV::AnonNew { args, .. } => {
            lemma_gone_exprs(args, from, to);
        },
        _ => {},
    }
}

/// [`lemma_gone`] where there is a value.
proof fn lemma_gone_opt(o: Option<Box<ExprV>>, from: u32, to: u32)
    requires
        from != to,
    ensures
        !uses_local_opt(var_renamed_opt(o, from, to), from),
    decreases o,
{
    if let Some(x) = o {
        lemma_gone(*x, from, to);
    }
}

/// [`lemma_gone`] where there is a value.
proof fn lemma_gone_oexpr(o: Option<ExprV>, from: u32, to: u32)
    requires
        from != to,
    ensures
        !uses_local_oexpr(var_renamed_oexpr(o, from, to), from),
    decreases o,
{
    if let Some(x) = o {
        lemma_gone(x, from, to);
    }
}

/// [`lemma_gone`] where there is a list.
proof fn lemma_gone_oexprs(o: Option<Seq<ExprV>>, from: u32, to: u32)
    requires
        from != to,
    ensures
        !uses_local_oexprs(var_renamed_oexprs(o, from, to), from),
    decreases o,
{
    if let Some(x) = o {
        lemma_gone_exprs(x, from, to);
    }
}

/// [`lemma_gone`] inside the captures of a lambda.
proof fn lemma_gone_captures(l: LambdaExprV, from: u32, to: u32)
    requires
        from != to,
    ensures
        !uses_local_captures(var_renamed_captures(l, from, to), from),
    decreases l,
{
    lemma_gone_exprs(l.captures, from, to);
}

/// [`lemma_gone`] over a list.
proof fn lemma_gone_exprs(v: Seq<ExprV>, from: u32, to: u32)
    requires
        from != to,
    ensures
        !uses_local_exprs(var_renamed_exprs(v, from, to), from),
    decreases v,
{
    let w = var_renamed_exprs(v, from, to);
    assert forall|i: int| 0 <= i < w.len() implies !uses_local(#[trigger] w[i], from) by {
        lemma_gone(v[i], from, to);
    }
}

/// [`lemma_gone`] inside a concatenation piece.
proof fn lemma_gone_part(p: ConcatPartV, from: u32, to: u32)
    requires
        from != to,
    ensures
        !uses_local_part(var_renamed_part(p, from, to), from),
    decreases p,
{
    if let ConcatPartV::Str(e) = p {
        lemma_gone(e, from, to);
    }
}

/// [`lemma_gone`] over a list.
proof fn lemma_gone_parts(v: Seq<ConcatPartV>, from: u32, to: u32)
    requires
        from != to,
    ensures
        !uses_local_parts(var_renamed_parts(v, from, to), from),
    decreases v,
{
    let w = var_renamed_parts(v, from, to);
    assert forall|i: int| 0 <= i < w.len() implies !uses_local_part(#[trigger] w[i], from) by {
        lemma_gone_part(v[i], from, to);
    }
}

/// Once a variable is renamed, no statement refers to it or declares it under the old
/// name.
pub proof fn law_renamed_variable_is_gone(s: StmtV, from: u32, to: u32)
    requires
        from != to,
    ensures
        !stmt_uses(stmt_var_renamed(s, from, to), from),
        !declares(stmt_var_renamed(s, from, to), from),
    decreases s,
{
    match s {
        StmtV::Block(items) => {
            lemma_gone_from_seq(items, from, to);
        },
        StmtV::ExprStmt(e) => {
            lemma_gone(e, from, to);
        },
        StmtV::LocalDef { init, .. } => {
            lemma_gone_oexpr(init, from, to);
        },
        StmtV::Return(e) => {
            lemma_gone_oexpr(e, from, to);
        },
        StmtV::Throw(e) => {
            lemma_gone(e, from, to);
        },
        StmtV::If { cond, then_stmt, else_stmt } => {
            lemma_gone(cond, from, to);
            law_renamed_variable_is_gone(*then_stmt, from, to);
            lemma_gone_from_opt(else_stmt, from, to);
        },
        StmtV::While { cond, body } => {
            lemma_gone(cond, from, to);
            law_renamed_variable_is_gone(*body, from, to);
        },
        StmtV::DoWhile { body, cond } => {
            law_renamed_variable_is_gone(*body, from, to);
            lemma_gone(cond, from, to);
        },
        StmtV::For { init, cond, update, body } => {
            lemma_gone_from_seq(init, from, to);
            lemma_gone_oexpr(cond, from, to);
            lemma_gone_exprs(update, from, to);
            law_renamed_variable_is_gone(*body, from, to);
        },
        StmtV::ForEach { iterable, body, .. } => {
            lemma_gone(iterable, from, to);
            law_renamed_variable_is_gone(*body, from, to);
        },
        StmtV::Switch { selector, cases, default, .. } => {
            lemma_gone(selector, from, to);
            lemma_gone_from_cases(cases, from, to);
            lemma_gone_from_opt(default, from, to);
        },
        StmtV::Try { body, catches, finally } => {
            law_renamed_variable_is_gone(*body, from, to);
            lemma_gone_from_catches(catches, from, to);
            lemma_gone_from_opt(finally, from, to);
        },
        StmtV::TryWithResources { resources, body, catches, finally } => {
            lemma_gone_from_seq(resources, from, to);
            law_renamed_variable_is_gone(*body, from, to);
            lemma_gone_from_catches(catches, from, to);
            lemma_gone_from_opt(finally, from, to);
        },
        StmtV::Assert { cond, msg } => {
            lemma_gone(cond, from, to);
            lemma_gone_oexpr(msg, from, to);
        },
        StmtV::Synchronized { lock, body } => {
            lemma_gone(lock, from, to);
            law_renamed_variable_is_gone(*body, from, to);
        },
        StmtV::TernaryValue { e } => {
            lemma_gone(e, from, to);
        },
        StmtV::MonitorEnter(e) => {
            lemma_gone(e, from, to);
        },
        StmtV::MonitorExit(e) => {
            lemma_gone(e, from, to);
        },
        StmtV::Labeled { body, .. } => {
            law_renamed_variable_is_gone(*body, from, to);
        },
        _ => {},
    }
}

/// [`law_renamed_variable_is_gone`] where there is a statement.
proof fn lemma_gone_from_opt(o: Option<Box<StmtV>>, from: u32, to: u32)
    requires
        from != to,
    ensures
        !stmt_uses_opt(stmt_var_renamed_opt(o, from, to), from),
        !declares_opt(stmt_var_renamed_opt(o, from, to), from),
    decreases o,
{
    if let Some(x) = o {
        law_renamed_variable_is_gone(*x, from, to);
    }
}

/// [`law_renamed_variable_is_gone`] over a list.
proof fn lemma_gone_from_seq(v: Seq<StmtV>, from: u32, to: u32)
    requires
        from != to,
    ensures
        !stmt_uses_seq(stmt_var_renamed_seq(v, from, to), from),
        !declares_seq(stmt_var_renamed_seq(v, from, to), from),
    decreases v,
{
    let w = stmt_var_renamed_seq(v, from, to);
    assert forall|i: int|
        0 <= i < w.len() implies !stmt_uses(#[trigger] w[i], from) && !declares(w[i], from) by {
        law_renamed_variable_is_gone(v[i], from, to);
    }
}

/// [`law_renamed_variable_is_gone`] over switch arms.
proof fn lemma_gone_from_cases(v: Seq<CaseGroupV>, from: u32, to: u32)
    requires
        from != to,
    ensures
        !stmt_uses_cases(stmt_var_renamed_cases(v, from, to), from),
        !declares_cases(stmt_var_renamed_cases(v, from, to), from),
    decreases v,
{
    let w = stmt_var_renamed_cases(v, from, to);
    assert forall|i: int|
        0 <= i < w.len() implies !stmt_uses_case(#[trigger] w[i], from)
            && !declares_case(w[i], from) by {
        lemma_gone_from_case(v[i], from, to);
    }
}

/// [`law_renamed_variable_is_gone`] over catch clauses.
proof fn lemma_gone_from_catches(v: Seq<CatchV>, from: u32, to: u32)
    requires
        from != to,
    ensures
        !stmt_uses_catches(stmt_var_renamed_catches(v, from, to), from),
        !declares_catches(stmt_var_renamed_catches(v, from, to), from),
    decreases v,
{
    let w = stmt_var_renamed_catches(v, from, to);
    assert forall|i: int|
        0 <= i < w.len() implies !stmt_uses_catch(#[trigger] w[i], from)
            && !declares_catch(w[i], from) by {
        lemma_gone_from_catch(v[i], from, to);
    }
}

/// [`law_renamed_variable_is_gone`] inside a switch arm.
proof fn lemma_gone_from_case(c: CaseGroupV, from: u32, to: u32)
    requires
        from != to,
    ensures
        !stmt_uses_case(stmt_var_renamed_case(c, from, to), from),
        !declares_case(stmt_var_renamed_case(c, from, to), from),
    decreases c,
{
    lemma_gone_oexpr(c.guard, from, to);
    lemma_gone_from_seq(c.body, from, to);
}

/// [`law_renamed_variable_is_gone`] inside a catch clause.
proof fn lemma_gone_from_catch(c: CatchV, from: u32, to: u32)
    requires
        from != to,
    ensures
        !stmt_uses_catch(stmt_var_renamed_catch(c, from, to), from),
        !declares_catch(stmt_var_renamed_catch(c, from, to), from),
    decreases c,
{
    law_renamed_variable_is_gone(*c.body, from, to);
}

/// Nothing stands for `v` any more.
pub open spec fn is_replaced(active: Seq<Option<u32>>, v: u32) -> bool {
    forall|u: u32| #[trigger] stands_for(active, u) != v
}

/// Once a variable is split, no expression reads the part that another one stands for.
pub proof fn law_split_variable_is_gone(e: ExprV, active: Seq<Option<u32>>, v: u32)
    requires
        is_replaced(active, v),
    ensures
        !uses_local(redirected(e, active), v),
{
    lemma_redirected(e, active, v);
}

/// A replaced variable does not occur.
proof fn lemma_redirected(e: ExprV, active: Seq<Option<u32>>, v: u32)
    requires
        is_replaced(active, v),
    ensures
        !uses_local(redirected(e, active), v),
    decreases e,
{
    match e {
        ExprV::New { args, .. } => {
            lemma_redirected_exprs(args, active, v);
        },
        ExprV::NewArray { dims, init, .. } => {
            lemma_redirected_exprs(dims, active, v);
            lemma_redirected_oexprs(init, active, v);
        },
        ExprV::NewMultiArray { dims, .. } => {
            lemma_redirected_exprs(dims, active, v);
        },
        ExprV::Field { owner, .. } => {
            lemma_redirected_opt(owner, active, v);
        },
        ExprV::Method { owner, args, .. } => {
            lemma_redirected_opt(owner, active, v);
            lemma_redirected_exprs(args, active, v);
        },
        ExprV::ArrayIndex { array, index } => {
            lemma_redirected(*array, active, v);
            lemma_redirected(*index, active, v);
        },
        ExprV::Cast { e, .. } => {
            lemma_redirected(*e, active, v);
        },
        ExprV::InstanceOf { e, .. } => {
            lemma_redirected(*e, active, v);
        },
        ExprV::Un { e, .. } => {
            lemma_redirected(*e, active, v);
        },
        ExprV::Bin { l, r, .. } => {
            lemma_redirected(*l, active, v);
            lemma_redirected(*r, active, v);
        },
        ExprV::Cond { c, t, f } => {
            lemma_redirected(*c, active, v);
            lemma_redirected(*t, active, v);
            lemma_redirected(*f, active, v);
        },
        ExprV::Assign { target, value, .. } => {
            lemma_redirected(*target, active, v);
            lemma_redirected(*value, active, v);
        },
        ExprV::PreIncDec { e, .. } => {
            lemma_redirected(*e, active, v);
        },
        ExprV::PostIncDec { e, .. } => {
            lemma_redirected(*e, active, v);
        },
        ExprV::Lambda(l) => {
            lemma_redirected_captures(*l, active, v);
        },
        ExprV::StringConcat(parts) => {
            lemma_redirected_parts(parts, active, v);
        },
        ExprV::Invokedynamic { args, .. } => {
            lemma_redirected_exprs(args, active, v);
        },
        ExprV::AnonNew { args, .. } => {
            lemma_redirected_exprs(args, active, v);
        },
        _ => {},
    }
}

/// [`lemma_redirected`] where there is a value.
proof fn lemma_redirected_opt(o: Option<Box<ExprV>>, active: Seq<Option<u32>>, v: u32)
    requires
        is_replaced(active, v),
    ensures
        !uses_local_opt(redirected_opt(o, active), v),
    decreases o,
{
    if let Some(x) = o {
        lemma_redirected(*x, active, v);
    }
}

/// [`lemma_redirected`] where there is a list.
proof fn lemma_redirected_oexprs(o: Option<Seq<ExprV>>, active: Seq<Option<u32>>, v: u32)
    requires
        is_replaced(active, v),
    ensures
        !uses_local_oexprs(redirected_oexprs(o, active), v),
    decreases o,
{
    if let Some(x) = o {
        lemma_redirected_exprs(x, active, v);
    }
}

/// [`lemma_redirected`] inside the captures of a lambda.
proof fn lemma_redirected_captures(l: LambdaExprV, active: Seq<Option<u32>>, v: u32)
    requires
        is_replaced(active, v),
    ensures
        !uses_local_captures(redirected_captures(l, active), v),
    decreases l,
{
    lemma_redirected_exprs(l.captures, active, v);
}

/// [`lemma_redirected`] over a list.
proof fn lemma_redirected_exprs(l: Seq<ExprV>, active: Seq<Option<u32>>, v: u32)
    requires
        is_replaced(active, v),
    ensures
        !uses_local_exprs(redirected_exprs(l, active), v),
    decreases l,
{
    let w = redirected_exprs(l, active);
    assert forall|i: int| 0 <= i < w.len() implies !uses_local(#[trigger] w[i], v) by {
        lemma_redirected(l[i], active, v);
    }
}

/// [`lemma_redirected`] inside a concatenation piece.
proof fn lemma_redirected_part(p: ConcatPartV, active: Seq<Option<u32>>, v: u32)
    requires
        is_replaced(active, v),
    ensures
        !uses_local_part(redirected_part(p, active), v),
    decreases p,
{
    if let ConcatPartV::Str(e) = p {
        lemma_redirected(e, active, v);
    }
}

/// [`lemma_redirected`] over a list.
proof fn lemma_redirected_parts(l: Seq<ConcatPartV>, active: Seq<Option<u32>>, v: u32)
    requires
        is_replaced(active, v),
    ensures
        !uses_local_parts(redirected_parts(l, active), v),
    decreases l,
{
    let w = redirected_parts(l, active);
    assert forall|i: int| 0 <= i < w.len() implies !uses_local_part(#[trigger] w[i], v) by {
        lemma_redirected_part(l[i], active, v);
    }
}

/// Once variables that hold `this` are folded, no expression mentions them.
pub proof fn law_folded_variable_is_gone(e: ExprV, set: Set<u32>, v: u32)
    requires
        set.contains(v),
    ensures
        !uses_local(this_folded(e, set), v),
{
    lemma_folded(e, set, v);
}

/// A folded variable does not occur.
proof fn lemma_folded(e: ExprV, set: Set<u32>, v: u32)
    requires
        set.contains(v),
    ensures
        !uses_local(this_folded(e, set), v),
    decreases e,
{
    match e {
        ExprV::New { args, .. } => {
            lemma_folded_exprs(args, set, v);
        },
        ExprV::NewArray { dims, init, .. } => {
            lemma_folded_exprs(dims, set, v);
            lemma_folded_oexprs(init, set, v);
        },
        ExprV::NewMultiArray { dims, .. } => {
            lemma_folded_exprs(dims, set, v);
        },
        ExprV::Field { owner, .. } => {
            lemma_folded_opt(owner, set, v);
        },
        ExprV::Method { owner, args, .. } => {
            lemma_folded_opt(owner, set, v);
            lemma_folded_exprs(args, set, v);
        },
        ExprV::ArrayIndex { array, index } => {
            lemma_folded(*array, set, v);
            lemma_folded(*index, set, v);
        },
        ExprV::Cast { e, .. } => {
            lemma_folded(*e, set, v);
        },
        ExprV::InstanceOf { e, .. } => {
            lemma_folded(*e, set, v);
        },
        ExprV::Un { e, .. } => {
            lemma_folded(*e, set, v);
        },
        ExprV::Bin { l, r, .. } => {
            lemma_folded(*l, set, v);
            lemma_folded(*r, set, v);
        },
        ExprV::Cond { c, t, f } => {
            lemma_folded(*c, set, v);
            lemma_folded(*t, set, v);
            lemma_folded(*f, set, v);
        },
        ExprV::Assign { target, value, .. } => {
            lemma_folded(*target, set, v);
            lemma_folded(*value, set, v);
        },
        ExprV::PreIncDec { e, .. } => {
            lemma_folded(*e, set, v);
        },
        ExprV::PostIncDec { e, .. } => {
            lemma_folded(*e, set, v);
        },
        ExprV::Lambda(l) => {
            lemma_folded_captures(*l, set, v);
        },
        ExprV::StringConcat(parts) => {
            lemma_folded_parts(parts, set, v);
        },
        ExprV::Invokedynamic { args, .. } => {
            lemma_folded_exprs(args, set, v);
        },
        ExprV::AnonNew { args, .. } => {
            lemma_folded_exprs(args, set, v);
        },
        _ => {},
    }
}

/// [`lemma_folded`] where there is a value.
proof fn lemma_folded_opt(o: Option<Box<ExprV>>, set: Set<u32>, v: u32)
    requires
        set.contains(v),
    ensures
        !uses_local_opt(this_folded_opt(o, set), v),
    decreases o,
{
    if let Some(x) = o {
        lemma_folded(*x, set, v);
    }
}

/// [`lemma_folded`] where there is a list.
proof fn lemma_folded_oexprs(o: Option<Seq<ExprV>>, set: Set<u32>, v: u32)
    requires
        set.contains(v),
    ensures
        !uses_local_oexprs(this_folded_oexprs(o, set), v),
    decreases o,
{
    if let Some(x) = o {
        lemma_folded_exprs(x, set, v);
    }
}

/// [`lemma_folded`] inside the captures of a lambda.
proof fn lemma_folded_captures(l: LambdaExprV, set: Set<u32>, v: u32)
    requires
        set.contains(v),
    ensures
        !uses_local_captures(this_folded_captures(l, set), v),
    decreases l,
{
    lemma_folded_exprs(l.captures, set, v);
}

/// [`lemma_folded`] over a list.
proof fn lemma_folded_exprs(l: Seq<ExprV>, set: Set<u32>, v: u32)
    requires
        set.contains(v),
    ensures
        !uses_local_exprs(this_folded_exprs(l, set), v),
    decreases l,
{
    let w = this_folded_exprs(l, set);
    assert forall|i: int| 0 <= i < w.len() implies !uses_local(#[trigger] w[i], v) by {
        lemma_folded(l[i], set, v);
    }
}

/// [`lemma_folded`] inside a concatenation piece.
proof fn lemma_folded_part(p: ConcatPartV, set: Set<u32>, v: u32)
    requires
        set.contains(v),
    ensures
        !uses_local_part(this_folded_part(p, set), v),
    decreases p,
{
    if let ConcatPartV::Str(e) = p {
        lemma_folded(e, set, v);
    }
}

/// [`lemma_folded`] over a list.
proof fn lemma_folded_parts(l: Seq<ConcatPartV>, set: Set<u32>, v: u32)
    requires
        set.contains(v),
    ensures
        !uses_local_parts(this_folded_parts(l, set), v),
    decreases l,
{
    let w = this_folded_parts(l, set);
    assert forall|i: int| 0 <= i < w.len() implies !uses_local_part(#[trigger] w[i], v) by {
        lemma_folded_part(l[i], set, v);
    }
}

} // verus!
