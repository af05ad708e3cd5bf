//! Which local variables a tree declares, uses and reads.
use crate::expr::{
    concat_parts, exprs, opt_box, opt_expr, opt_exprs, AssignOp, ConcatPart, ConcatPartV, Expr,
    ExprV, LambdaExpr, LambdaExprV,
};
use crate::stmt::{
    case_groups, catch_list, opt_stmt, stmts, CaseGroup, CaseGroupV, Catch, CatchV, Stmt, StmtV,
};
use std::collections::HashSet;
use vstd::prelude::*;

verus! {

broadcast use vstd::std_specs::hash::group_hash_axioms;

/// Local variable `v` occurs in `e`.
pub open spec fn uses_local(e: ExprV, v: u32) -> bool
    decreases e,
{
    match e {
        ExprV::Const(_) => false,
        ExprV::Local { var, .. } => var == v,
        ExprV::This => false,
        ExprV::New { args, .. } => uses_local_exprs(args, v),
        ExprV::NewArray { dims, init, .. } => uses_local_exprs(dims, v)
            || uses_local_oexprs(init, v),
        ExprV::NewMultiArray { dims, .. } => uses_local_exprs(dims, v),
        ExprV::Field { owner, .. } => uses_local_opt(owner, v),
        ExprV::Method { owner, args, .. } => uses_local_opt(owner, v) || uses_local_exprs(args, v),
        ExprV::ArrayIndex { array, index } => uses_local(*array, v) || uses_local(*index, v),
        ExprV::Cast { e, .. } => uses_local(*e, v),
        ExprV::InstanceOf { e, .. } => uses_local(*e, v),
        ExprV::Un { e, .. } => uses_local(*e, v),
        ExprV::Bin { l, r, .. } => uses_local(*l, v) || uses_local(*r, v),
        ExprV::Cond { c, t, f } => uses_local(*c, v) || uses_local(*t, v) || uses_local(*f, v),
        ExprV::Assign { target, value, .. } => uses_local(*target, v) || uses_local(*value, v),
        ExprV::PreIncDec { e, .. } => uses_local(*e, v),
        ExprV::PostIncDec { e, .. } => uses_local(*e, v),
        ExprV::Lambda(l) => uses_local_captures(*l, v),
        ExprV::StringConcat(parts) => uses_local_parts(parts, v),
        ExprV::Raw(_) => false,
        ExprV::RawT(_, _) => false,
        ExprV::Invokedynamic { args, .. } => uses_local_exprs(args, v),
        ExprV::AnonNew { args, .. } => uses_local_exprs(args, v),
    }
}

/// [`uses_local`] where there is a value.
pub open spec fn uses_local_opt(o: Option<Box<ExprV>>, v: u32) -> bool
    decreases o,
{
    match o {
        Some(x) => uses_local(*x, v),
        None => false,
    }
}

/// [`uses_local`] where there is a value.
pub open spec fn uses_local_oexprs(o: Option<Seq<ExprV>>, v: u32) -> bool
    decreases o,
{
    match o {
        Some(x) => uses_local_exprs(x, v),
        None => false,
    }
}

/// [`uses_local`] inside the captures of a lambda.
pub open spec fn uses_local_captures(l: LambdaExprV, v: u32) -> bool
    decreases l,
{
    uses_local_exprs(l.captures, v)
}

/// [`uses_local`] over a list.
pub open spec fn uses_local_exprs(l: Seq<ExprV>, v: u32) -> bool
    decreases l,
{
    exists|i: int| 0 <= i < l.len() && uses_local(#[trigger] l[i], v)
}

/// [`uses_local`] inside a concatenation piece.
pub open spec fn uses_local_part(p: ConcatPartV, v: u32) -> bool
    decreases p,
{
    match p {
        ConcatPartV::Str(e) => uses_local(e, v),
        ConcatPartV::Const(_) => false,
    }
}

/// [`uses_local`] over a list.
pub open spec fn uses_local_parts(l: Seq<ConcatPartV>, v: u32) -> bool
    decreases l,
{
    exists|i: int| 0 <= i < l.len() && uses_local_part(#[trigger] l[i], v)
}

/// [`uses_local`] where there is a value.
pub open spec fn uses_local_oexpr(o: Option<ExprV>, v: u32) -> bool
    decreases o,
{
    match o {
        Some(x) => uses_local(x, v),
        None => false,
    }
}

/// Adds to `out` every local variable that occurs in `e`.
pub fn expr_uses(e: &Expr, out: &mut HashSet<u32>)
    ensures
        forall|v: u32|
            #[trigger] final(out)@.contains(v) <==> old(out)@.contains(v) || uses_local(e@, v),
    decreases e,
{
    match e {
        Expr::Const(_) => {  },
        Expr::Local { var, .. } => { out.insert(*var); },
        Expr::This => {  },
        Expr::New { args, .. } => { expr_uses_exprs(args, out); },
        Expr::NewArray { dims, init, .. } => {
            expr_uses_exprs(dims, out);
            expr_uses_oexprs(init, out);
        },
        Expr::NewMultiArray { dims, .. } => { expr_uses_exprs(dims, out); },
        Expr::Field { owner, .. } => { expr_uses_opt(owner, out); },
        Expr::Method { owner, args, .. } => {
            expr_uses_opt(owner, out);
            expr_uses_exprs(args, out);
        },
        Expr::ArrayIndex { array, index } => { expr_uses(array, out); expr_uses(index, out); },
        Expr::Cast { e, .. } => { expr_uses(e, out); },
        Expr::InstanceOf { e, .. } => { expr_uses(e, out); },
        Expr::Un { e, .. } => { expr_uses(e, out); },
        Expr::Bin { l, r, .. } => { expr_uses(l, out); expr_uses(r, out); },
        Expr::Cond { c, t, f } => { expr_uses(c, out); expr_uses(t, out); expr_uses(f, out); },
        Expr::Assign { target, value, .. } => { expr_uses(target, out); expr_uses(value, out); },
        Expr::PreIncDec { e, .. } => { expr_uses(e, out); },
        Expr::PostIncDec { e, .. } => { expr_uses(e, out); },
        Expr::Lambda(l) => { expr_uses_captures(l, out); },
        Expr::StringConcat(parts) => { expr_uses_parts(parts, out); },
        Expr::Raw(_) => {  },
        Expr::RawT(_, _) => {  },
        Expr::Invokedynamic { args, .. } => { expr_uses_exprs(args, out); },
        Expr::AnonNew { args, .. } => { expr_uses_exprs(args, out); },
    }
}

/// `expr_uses` where there is a value.
pub fn expr_uses_opt(o: &Option<Box<Expr>>, out: &mut HashSet<u32>)
    ensures
        forall|v: u32|
            #[trigger] final(out)@.contains(v)
                <==> old(out)@.contains(v) || uses_local_opt(opt_box(*o), v),
    decreases o,
{
    if let Some(x) = o {
        expr_uses(x, out);
    }
}

/// `expr_uses` where there is a value.
pub fn expr_uses_oexprs(o: &Option<Vec<Expr>>, out: &mut HashSet<u32>)
    ensures
        forall|v: u32|
            #[trigger] final(out)@.contains(v)
                <==> old(out)@.contains(v) || uses_local_oexprs(opt_exprs(*o), v),
    decreases o,
{
    if let Some(x) = o {
        expr_uses_exprs(x, out);
    }
}

/// `expr_uses` inside the captures of a lambda.
pub fn expr_uses_captures(l: &LambdaExpr, out: &mut HashSet<u32>)
    ensures
        forall|v: u32|
            #[trigger] final(out)@.contains(v)
                <==> old(out)@.contains(v) || uses_local_captures(l@, v),
    decreases l,
{
    expr_uses_exprs(&l.captures, out);
}

/// `expr_uses` over a list.
#[verifier::loop_isolation(false)]
pub fn expr_uses_exprs(l: &Vec<Expr>, out: &mut HashSet<u32>)
    ensures
        forall|v: u32|
            #[trigger] final(out)@.contains(v)
                <==> old(out)@.contains(v) || uses_local_exprs(exprs(l@), v),
    decreases l,
{
    let mut i: usize = 0;
    while i < l.len()
        invariant
            i <= l.len(),
            forall|v: u32| #[trigger] out@.contains(v) <==> old(out)@.contains(v) || exists|j: int|
                0 <= j < i && uses_local(#[trigger] exprs(l@)[j], v),
        decreases l.len() - i,
    {
        assert(decreases_to!(l => l@[i as int]));
        assert(exprs(l@)[i as int] == l@[i as int]@);
        expr_uses(&l[i], out);
        i += 1;
    }
}

/// `expr_uses` inside a concatenation piece.
pub fn expr_uses_part(p: &ConcatPart, out: &mut HashSet<u32>)
    ensures
        forall|v: u32|
            #[trigger] final(out)@.contains(v) <==> old(out)@.contains(v) || uses_local_part(p@, v),
    decreases p,
{
    match p {
        ConcatPart::Str(e) => expr_uses(e, out),
        ConcatPart::Const(_) => {},
    }
}

/// `expr_uses` over a list.
#[verifier::loop_isolation(false)]
pub fn expr_uses_parts(l: &Vec<ConcatPart>, out: &mut HashSet<u32>)
    ensures
        forall|v: u32|
            #[trigger] final(out)@.contains(v)
                <==> old(out)@.contains(v) || uses_local_parts(concat_parts(l@), v),
    decreases l,
{
    let mut i: usize = 0;
    while i < l.len()
        invariant
            i <= l.len(),
            forall|v: u32| #[trigger] out@.contains(v) <==> old(out)@.contains(v) || exists|j: int|
                0 <= j < i && uses_local_part(#[trigger] concat_parts(l@)[j], v),
        decreases l.len() - i,
    {
        assert(decreases_to!(l => l@[i as int]));
        assert(concat_parts(l@)[i as int] == l@[i as int]@);
        expr_uses_part(&l[i], out);
        i += 1;
    }
}

/// `expr_uses` where there is a value.
pub fn expr_uses_oexpr(o: &Option<Expr>, out: &mut HashSet<u32>)
    ensures
        forall|v: u32|
            #[trigger] final(out)@.contains(v)
                <==> old(out)@.contains(v) || uses_local_oexpr(opt_expr(*o), v),
    decreases o,
{
    if let Some(x) = o {
        expr_uses(x, out);
    }
}

/// Local variable `v` occurs in `s`, declarations included.
pub open spec fn stmt_uses(s: StmtV, v: u32) -> bool
    decreases s,
{
    match s {
        StmtV::Block(items) => stmt_uses_seq(items, v),
        StmtV::ExprStmt(e) => uses_local(e, v),
        StmtV::LocalDef { var, init, .. } => var == v || uses_local_oexpr(init, v),
        StmtV::Return(e) => uses_local_oexpr(e, v),
        StmtV::Throw(e) => uses_local(e, v),
        StmtV::If { cond, then_stmt, else_stmt } => uses_local(cond, v) || stmt_uses(*then_stmt, v)
            || stmt_uses_opt(else_stmt, v),
        StmtV::While { cond, body } => uses_local(cond, v) || stmt_uses(*body, v),
        StmtV::DoWhile { body, cond } => stmt_uses(*body, v) || uses_local(cond, v),
        StmtV::For { init, cond, update, body } => stmt_uses_seq(init, v)
            || uses_local_oexpr(cond, v) || uses_local_exprs(update, v) || stmt_uses(*body, v),
        StmtV::ForEach { var, iterable, body, .. } => var == v || uses_local(iterable, v)
            || stmt_uses(*body, v),
        StmtV::Switch { selector, cases, default, .. } => uses_local(selector, v)
            || stmt_uses_cases(cases, v) || stmt_uses_opt(default, v),
        StmtV::Try { body, catches, finally } => stmt_uses(*body, v)
            || stmt_uses_catches(catches, v) || stmt_uses_opt(finally, v),
        StmtV::TryWithResources { resources, body, catches, finally } => stmt_uses_seq(resources, v)
            || stmt_uses(*body, v) || stmt_uses_catches(catches, v) || stmt_uses_opt(finally, v),
        StmtV::Synchronized { lock, body } => uses_local(lock, v) || stmt_uses(*body, v),
        StmtV::MonitorEnter(e) => uses_local(e, v),
        StmtV::MonitorExit(e) => uses_local(e, v),
        StmtV::Label(_) => false,
        StmtV::Goto(_) => false,
        StmtV::ClassDecl { .. } => false,
        StmtV::Labeled { body, .. } => stmt_uses(*body, v),
        StmtV::Break(_) => false,
        StmtV::Continue(_) => false,
        StmtV::Comment(_) => false,
        StmtV::Assert { cond, msg } => uses_local(cond, v) || uses_local_oexpr(msg, v),
        StmtV::TernaryValue { e } => uses_local(e, v),
        _ => false,
    }
}

/// [`stmt_uses`] where there is a value.
pub open spec fn stmt_uses_opt(o: Option<Box<StmtV>>, v: u32) -> bool
    decreases o,
{
    match o {
        Some(x) => stmt_uses(*x, v),
        None => false,
    }
}

/// [`stmt_uses`] over a list.
pub open spec fn stmt_uses_seq(l: Seq<StmtV>, v: u32) -> bool
    decreases l,
{
    exists|i: int| 0 <= i < l.len() && stmt_uses(#[trigger] l[i], v)
}

/// [`stmt_uses`] inside a switch arm.
pub open spec fn stmt_uses_case(c: CaseGroupV, v: u32) -> bool
    decreases c,
{
    uses_local_oexpr(c.guard, v) || stmt_uses_seq(c.body, v)
}

/// [`stmt_uses`] over a list.
pub open spec fn stmt_uses_cases(l: Seq<CaseGroupV>, v: u32) -> bool
    decreases l,
{
    exists|i: int| 0 <= i < l.len() && stmt_uses_case(#[trigger] l[i], v)
}

/// [`stmt_uses`] inside a catch clause.
pub open spec fn stmt_uses_catch(c: CatchV, v: u32) -> bool
    decreases c,
{
    stmt_uses(*c.body, v)
}

/// [`stmt_uses`] over a list.
pub open spec fn stmt_uses_catches(l: Seq<CatchV>, v: u32) -> bool
    decreases l,
{
    exists|i: int| 0 <= i < l.len() && stmt_uses_catch(#[trigger] l[i], v)
}

/// Adds to `out` every local variable that occurs in `s`, declarations included.
pub fn collect_use(s: &Stmt, out: &mut HashSet<u32>)
    ensures
        forall|v: u32|
            #[trigger] final(out)@.contains(v) <==> old(out)@.contains(v) || stmt_uses(s@, v),
    decreases s,
{
    match s {
        Stmt::Block(items) => { collect_use_vec(items, out); },
        Stmt::ExprStmt(e) => { expr_uses(e, out); },
        Stmt::LocalDef { var, init, .. } => { out.insert(*var); expr_uses_oexpr(init, out); },
        Stmt::Return(e) => { expr_uses_oexpr(e, out); },
        Stmt::Throw(e) => { expr_uses(e, out); },
        Stmt::If { cond, then_stmt, else_stmt } => {
            expr_uses(cond, out);
            collect_use(then_stmt, out);
            collect_use_opt(else_stmt, out);
        },
        Stmt::While { cond, body } => { expr_uses(cond, out); collect_use(body, out); },
        Stmt::DoWhile { body, cond } => { collect_use(body, out); expr_uses(cond, out); },
        Stmt::For { init, cond, update, body } => {
            collect_use_vec(init, out);
            expr_uses_oexpr(cond, out);
            expr_uses_exprs(update, out);
            collect_use(body, out);
        },
        Stmt::ForEach { var, iterable, body, .. } => {
            out.insert(*var);
            expr_uses(iterable, out);
            collect_use(body, out);
        },
        Stmt::Switch { selector, cases, default, .. } => {
            expr_uses(selector, out);
            collect_use_cases(cases, out);
            collect_use_opt(default, out);
        },
        Stmt::Try { body, catches, finally } => {
            collect_use(body, out);
            collect_use_catches(catches, out);
            collect_use_opt(finally, out);
        },
        Stmt::TryWithResources { resources, body, catches, finally } => {
            collect_use_vec(resources, out);
            collect_use(body, out);
            collect_use_catches(catches, out);
            collect_use_opt(finally, out);
        },
        Stmt::Synchronized { lock, body } => { expr_uses(lock, out); collect_use(body, out); },
        Stmt::MonitorEnter(e) => { expr_uses(e, out); },
        Stmt::MonitorExit(e) => { expr_uses(e, out); },
        Stmt::Label(_) => {  },
        Stmt::Goto(_) => {  },
        Stmt::ClassDecl { .. } => {  },
        Stmt::Labeled { body, .. } => { collect_use(body, out); },
        Stmt::Break(_) => {  },
        Stmt::Continue(_) => {  },
        Stmt::Comment(_) => {  },
        Stmt::Assert { cond, msg } => { expr_uses(cond, out); expr_uses_oexpr(msg, out); },
        Stmt::TernaryValue { e } => { expr_uses(e, out); },
        _ => {},
    }
}

/// `collect_use` where there is a value.
pub fn collect_use_opt(o: &Option<Box<Stmt>>, out: &mut HashSet<u32>)
    ensures
        forall|v: u32|
            #[trigger] final(out)@.contains(v)
                <==> old(out)@.contains(v) || stmt_uses_opt(opt_stmt(*o), v),
    decreases o,
{
    if let Some(x) = o {
        collect_use(x, out);
    }
}

/// `collect_use` over a list.
#[verifier::loop_isolation(false)]
pub fn collect_use_vec(l: &Vec<Stmt>, out: &mut HashSet<u32>)
    ensures
        forall|v: u32|
            #[trigger] final(out)@.contains(v)
                <==> old(out)@.contains(v) || stmt_uses_seq(stmts(l@), v),
    decreases l,
{
    let mut i: usize = 0;
    while i < l.len()
        invariant
            i <= l.len(),
            forall|v: u32| #[trigger] out@.contains(v) <==> old(out)@.contains(v) || exists|j: int|
                0 <= j < i && stmt_uses(#[trigger] stmts(l@)[j], v),
        decreases l.len() - i,
    {
        assert(decreases_to!(l => l@[i as int]));
        assert(stmts(l@)[i as int] == l@[i as int]@);
        collect_use(&l[i], out);
        i += 1;
    }
}

/// `collect_use` inside a switch arm.
pub fn collect_use_case(c: &CaseGroup, out: &mut HashSet<u32>)
    ensures
        forall|v: u32|
            #[trigger] final(out)@.contains(v) <==> old(out)@.contains(v) || stmt_uses_case(c@, v),
    decreases c,
{
    expr_uses_oexpr(&c.guard, out);
    collect_use_vec(&c.body, out);
}

/// `collect_use` over a list.
#[verifier::loop_isolation(false)]
pub fn collect_use_cases(l: &Vec<CaseGroup>, out: &mut HashSet<u32>)
    ensures
        forall|v: u32|
            #[trigger] final(out)@.contains(v)
                <==> old(out)@.contains(v) || stmt_uses_cases(case_groups(l@), v),
    decreases l,
{
    let mut i: usize = 0;
    while i < l.len()
        invariant
            i <= l.len(),
            forall|v: u32| #[trigger] out@.contains(v) <==> old(out)@.contains(v) || exists|j: int|
                0 <= j < i && stmt_uses_case(#[trigger] case_groups(l@)[j], v),
        decreases l.len() - i,
    {
        assert(decreases_to!(l => l@[i as int]));
        assert(case_groups(l@)[i as int] == l@[i as int]@);
        collect_use_case(&l[i], out);
        i += 1;
    }
}

/// `collect_use` inside a catch clause.
pub fn collect_use_catch(c: &Catch, out: &mut HashSet<u32>)
    ensures
        forall|v: u32|
            #[trigger] final(out)@.contains(v) <==> old(out)@.contains(v) || stmt_uses_catch(c@, v),
    decreases c,
{
    collect_use(&c.body, out);
}

/// `collect_use` over a list.
#[verifier::loop_isolation(false)]
pub fn collect_use_catches(l: &Vec<Catch>, out: &mut HashSet<u32>)
    ensures
        forall|v: u32|
            #[trigger] final(out)@.contains(v)
                <==> old(out)@.contains(v) || stmt_uses_catches(catch_list(l@), v),
    decreases l,
{
    let mut i: usize = 0;
    while i < l.len()
        invariant
            i <= l.len(),
            forall|v: u32| #[trigger] out@.contains(v) <==> old(out)@.contains(v) || exists|j: int|
                0 <= j < i && stmt_uses_catch(#[trigger] catch_list(l@)[j], v),
        decreases l.len() - i,
    {
        assert(decreases_to!(l => l@[i as int]));
        assert(catch_list(l@)[i as int] == l@[i as int]@);
        collect_use_catch(&l[i], out);
        i += 1;
    }
}

/// `s` declares local variable `v`: by a declaration, a `for`-each header or a catch
/// clause.
pub open spec fn declares(s: StmtV, v: u32) -> bool
    decreases s,
{
    match s {
        StmtV::Block(items) => declares_seq(items, v),
        StmtV::LocalDef { var, .. } => var == v,
        StmtV::If { then_stmt, else_stmt, .. } => declares(*then_stmt, v)
            || declares_opt(else_stmt, v),
        StmtV::While { body, .. } => declares(*body, v),
        StmtV::DoWhile { body, .. } => declares(*body, v),
        StmtV::For { init, body, .. } => declares_seq(init, v) || declares(*body, v),
        StmtV::ForEach { var, body, .. } => var == v || declares(*body, v),
        StmtV::Switch { cases, default, .. } => declares_cases(cases, v)
            || declares_opt(default, v),
        StmtV::Try { body, catches, finally } => declares(*body, v) || declares_catches(catches, v)
            || declares_opt(finally, v),
        StmtV::TryWithResources { resources, body, catches, finally } => declares_seq(resources, v)
            || declares(*body, v) || declares_catches(catches, v) || declares_opt(finally, v),
        StmtV::Synchronized { body, .. } => declares(*body, v),
        StmtV::Labeled { body, .. } => declares(*body, v),
        _ => false,
    }
}

/// [`declares`] where there is a value.
pub open spec fn declares_opt(o: Option<Box<StmtV>>, v: u32) -> bool
    decreases o,
{
    match o {
        Some(x) => declares(*x, v),
        None => false,
    }
}

/// [`declares`] over a list.
pub open spec fn declares_seq(l: Seq<StmtV>, v: u32) -> bool
    decreases l,
{
    exists|i: int| 0 <= i < l.len() && declares(#[trigger] l[i], v)
}

/// [`declares`] inside a switch arm.
pub open spec fn declares_case(c: CaseGroupV, v: u32) -> bool
    decreases c,
{
    declares_seq(c.body, v)
}

/// [`declares`] over a list.
pub open spec fn declares_cases(l: Seq<CaseGroupV>, v: u32) -> bool
    decreases l,
{
    exists|i: int| 0 <= i < l.len() && declares_case(#[trigger] l[i], v)
}

/// [`declares`] inside a catch clause.
pub open spec fn declares_catch(c: CatchV, v: u32) -> bool
    decreases c,
{
    (c.var != u32::MAX && c.var == v) || declares(*c.body, v)
}

/// [`declares`] over a list.
pub open spec fn declares_catches(l: Seq<CatchV>, v: u32) -> bool
    decreases l,
{
    exists|i: int| 0 <= i < l.len() && declares_catch(#[trigger] l[i], v)
}

/// Adds to `out` every local variable that `s` declares.
pub fn collect_decl(s: &Stmt, out: &mut HashSet<u32>)
    ensures
        forall|v: u32|
            #[trigger] final(out)@.contains(v) <==> old(out)@.contains(v) || declares(s@, v),
    decreases s,
{
    match s {
        Stmt::Block(items) => { collect_decl_vec(items, out); },
        Stmt::LocalDef { var, .. } => { out.insert(*var); },
        Stmt::If { then_stmt, else_stmt, .. } => {
            collect_decl(then_stmt, out);
            collect_decl_opt(else_stmt, out);
        },
        Stmt::While { body, .. } => { collect_decl(body, out); },
        Stmt::DoWhile { body, .. } => { collect_decl(body, out); },
        Stmt::For { init, body, .. } => { collect_decl_vec(init, out); collect_decl(body, out); },
        Stmt::ForEach { var, body, .. } => { out.insert(*var); collect_decl(body, out); },
        Stmt::Switch { cases, default, .. } => {
            collect_decl_cases(cases, out);
            collect_decl_opt(default, out);
        },
        Stmt::Try { body, catches, finally } => {
            collect_decl(body, out);
            collect_decl_catches(catches, out);
            collect_decl_opt(finally, out);
        },
        Stmt::TryWithResources { resources, body, catches, finally } => {
            collect_decl_vec(resources, out);
            collect_decl(body, out);
            collect_decl_catches(catches, out);
            collect_decl_opt(finally, out);
        },
        Stmt::Synchronized { body, .. } => { collect_decl(body, out); },
        Stmt::Labeled { body, .. } => { collect_decl(body, out); },
        _ => {},
    }
}

/// `collect_decl` where there is a value.
pub fn collect_decl_opt(o: &Option<Box<Stmt>>, out: &mut HashSet<u32>)
    ensures
        forall|v: u32|
            #[trigger] final(out)@.contains(v)
                <==> old(out)@.contains(v) || declares_opt(opt_stmt(*o), v),
    decreases o,
{
    if let Some(x) = o {
        collect_decl(x, out);
    }
}

/// `collect_decl` over a list.
#[verifier::loop_isolation(false)]
pub fn collect_decl_vec(l: &Vec<Stmt>, out: &mut HashSet<u32>)
    ensures
        forall|v: u32|
            #[trigger] final(out)@.contains(v)
                <==> old(out)@.contains(v) || declares_seq(stmts(l@), v),
    decreases l,
{
    let mut i: usize = 0;
    while i < l.len()
        invariant
            i <= l.len(),
            forall|v: u32| #[trigger] out@.contains(v) <==> old(out)@.contains(v) || exists|j: int|
                0 <= j < i && declares(#[trigger] stmts(l@)[j], v),
        decreases l.len() - i,
    {
        assert(decreases_to!(l => l@[i as int]));
        assert(stmts(l@)[i as int] == l@[i as int]@);
        collect_decl(&l[i], out);
        i += 1;
    }
}

/// `collect_decl` inside a switch arm.
pub fn collect_decl_case(c: &CaseGroup, out: &mut HashSet<u32>)
    ensures
        forall|v: u32|
            #[trigger] final(out)@.contains(v) <==> old(out)@.contains(v) || declares_case(c@, v),
    decreases c,
{
    collect_decl_vec(&c.body, out);
}

/// `collect_decl` over a list.
#[verifier::loop_isolation(false)]
pub fn collect_decl_cases(l: &Vec<CaseGroup>, out: &mut HashSet<u32>)
    ensures
        forall|v: u32|
            #[trigger] final(out)@.contains(v)
                <==> old(out)@.contains(v) || declares_cases(case_groups(l@), v),
    decreases l,
{
    let mut i: usize = 0;
    while i < l.len()
        invariant
            i <= l.len(),
            forall|v: u32| #[trigger] out@.contains(v) <==> old(out)@.contains(v) || exists|j: int|
                0 <= j < i && declares_case(#[trigger] case_groups(l@)[j], v),
        decreases l.len() - i,
    {
        assert(decreases_to!(l => l@[i as int]));
        assert(case_groups(l@)[i as int] == l@[i as int]@);
        collect_decl_case(&l[i], out);
        i += 1;
    }
}

/// `collect_decl` inside a catch clause.
pub fn collect_decl_catch(c: &Catch, out: &mut HashSet<u32>)
    ensures
        forall|v: u32|
            #[trigger] final(out)@.contains(v) <==> old(out)@.contains(v) || declares_catch(c@, v),
    decreases c,
{
    if c.var != u32::MAX { out.insert(c.var); }
    collect_decl(&c.body, out);
}

/// `collect_decl` over a list.
#[verifier::loop_isolation(false)]
pub fn collect_decl_catches(l: &Vec<Catch>, out: &mut HashSet<u32>)
    ensures
        forall|v: u32|
            #[trigger] final(out)@.contains(v)
                <==> old(out)@.contains(v) || declares_catches(catch_list(l@), v),
    decreases l,
{
    let mut i: usize = 0;
    while i < l.len()
        invariant
            i <= l.len(),
            forall|v: u32| #[trigger] out@.contains(v) <==> old(out)@.contains(v) || exists|j: int|
                0 <= j < i && declares_catch(#[trigger] catch_list(l@)[j], v),
        decreases l.len() - i,
    {
        assert(decreases_to!(l => l@[i as int]));
        assert(catch_list(l@)[i as int] == l@[i as int]@);
        collect_decl_catch(&l[i], out);
        i += 1;
    }
}

/// Adds to `declared` and `used` the local variables that `s` declares and uses.
pub fn collect_decl_use(s: &Stmt, declared: &mut HashSet<u32>, used: &mut HashSet<u32>)
    ensures
        forall|v: u32| #[trigger]
            final(declared)@.contains(v) <==> old(declared)@.contains(v) || declares(s@, v),
        forall|v: u32| #[trigger]
            final(used)@.contains(v) <==> old(used)@.contains(v) || stmt_uses(s@, v),
{
    collect_decl(s, declared);
    collect_use(s, used);
}

/// `e` reads local variable `v`: an outermost plain assignment to a local does
/// not read its target.
pub open spec fn expr_reads(e: ExprV, v: u32) -> bool
    decreases e,
{
    match e {
        ExprV::Local { var, .. } => var == v,
        ExprV::Assign { target, op, value } => {
            (!(*target is Local && op == AssignOp::Plain) && expr_reads(*target, v)) || expr_reads(
                *value,
                v,
            )
        },
        _ => uses_local(e, v),
    }
}

/// [`expr_reads`] where there is a value.
pub open spec fn expr_reads_oexpr(o: Option<ExprV>, v: u32) -> bool {
    o matches Some(e) && expr_reads(e, v)
}

/// [`expr_reads`] over a list.
pub open spec fn expr_reads_exprs(l: Seq<ExprV>, v: u32) -> bool {
    exists|i: int| 0 <= i < l.len() && expr_reads(#[trigger] l[i], v)
}

/// Adds to `out` every local variable that `e` reads.
pub fn collect_expr_reads(e: &Expr, out: &mut HashSet<u32>)
    ensures
        forall|v: u32| #[trigger]
            final(out)@.contains(v) <==> old(out)@.contains(v) || expr_reads(e@, v),
    decreases e,
{
    match e {
        Expr::Local { var, .. } => {
            out.insert(*var);
        },
        Expr::Assign { target, value, op } => {
            let plain_local = matches!(**target, Expr::Local { .. }) && *op == AssignOp::Plain;
            assert(target@ is Local <==> **target is Local);
            if !plain_local {
                collect_expr_reads(target, out);
            }
            collect_expr_reads(value, out);
        },
        _ => expr_uses(e, out),
    }
}

/// `collect_expr_reads` where there is a value.
pub fn collect_expr_reads_oexpr(o: &Option<Expr>, out: &mut HashSet<u32>)
    ensures
        forall|v: u32| #[trigger]
            final(out)@.contains(v) <==> old(out)@.contains(v) || expr_reads_oexpr(opt_expr(*o), v),
{
    if let Some(e) = o {
        collect_expr_reads(e, out);
    }
}

/// `collect_expr_reads` over a list.
pub fn collect_expr_reads_exprs(l: &Vec<Expr>, out: &mut HashSet<u32>)
    ensures
        forall|v: u32| #[trigger]
            final(out)@.contains(v) <==> old(out)@.contains(v) || expr_reads_exprs(exprs(l@), v),
{
    let mut i: usize = 0;
    while i < l.len()
        invariant
            i <= l.len(),
            forall|v: u32| #[trigger]
                out@.contains(v) <==> old(out)@.contains(v) || exists|j: int|
                    0 <= j < i && expr_reads(#[trigger] exprs(l@)[j], v),
        decreases l.len() - i,
    {
        assert(exprs(l@)[i as int] == l@[i as int]@);
        collect_expr_reads(&l[i], out);
        i += 1;
    }
}

/// `s` may read local variable `v`; loop and catch variables count as read.
pub open spec fn stmt_reads(s: StmtV, v: u32) -> bool
    decreases s,
{
    match s {
        StmtV::Block(items) => stmt_reads_seq(items, v),
        StmtV::ExprStmt(e) => expr_reads(e, v),
        StmtV::LocalDef { init, .. } => expr_reads_oexpr(init, v),
        StmtV::Return(e) => expr_reads_oexpr(e, v),
        StmtV::Throw(e) => expr_reads(e, v),
        StmtV::If { cond, then_stmt, else_stmt } => expr_reads(cond, v)
            || stmt_reads(*then_stmt, v) || stmt_reads_opt(else_stmt, v),
        StmtV::While { cond, body } => expr_reads(cond, v) || stmt_reads(*body, v),
        StmtV::DoWhile { body, cond } => stmt_reads(*body, v) || expr_reads(cond, v),
        StmtV::For { init, cond, update, body } => stmt_reads_seq(init, v)
            || expr_reads_oexpr(cond, v) || expr_reads_exprs(update, v) || stmt_reads(*body, v),
        StmtV::ForEach { var, iterable, body, .. } => var == v || expr_reads(iterable, v)
            || stmt_reads(*body, v),
        StmtV::Switch { selector, cases, default, .. } => expr_reads(selector, v)
            || stmt_reads_cases(cases, v) || stmt_reads_opt(default, v),
        StmtV::Try { body, catches, finally } => stmt_reads(*body, v)
            || stmt_reads_catches(catches, v) || stmt_reads_opt(finally, v),
        StmtV::TryWithResources { resources, body, catches, finally } => stmt_reads_seq(
            resources,
            v,
        )
            || stmt_reads(*body, v) || stmt_reads_catches(catches, v) || stmt_reads_opt(finally, v),
        StmtV::Synchronized { lock, body } => expr_reads(lock, v) || stmt_reads(*body, v),
        StmtV::MonitorEnter(e) => expr_reads(e, v),
        StmtV::MonitorExit(e) => expr_reads(e, v),
        StmtV::Label(_) => false,
        StmtV::Goto(_) => false,
        StmtV::ClassDecl { .. } => false,
        StmtV::Labeled { body, .. } => stmt_reads(*body, v),
        StmtV::Break(_) => false,
        StmtV::Continue(_) => false,
        StmtV::Comment(_) => false,
        StmtV::Assert { cond, msg } => expr_reads(cond, v) || expr_reads_oexpr(msg, v),
        StmtV::TernaryValue { e } => expr_reads(e, v),
        _ => false,
    }
}

/// [`stmt_reads`] where there is a value.
pub open spec fn stmt_reads_opt(o: Option<Box<StmtV>>, v: u32) -> bool
    decreases o,
{
    match o {
        Some(x) => stmt_reads(*x, v),
        None => false,
    }
}

/// [`stmt_reads`] over a list.
pub open spec fn stmt_reads_seq(l: Seq<StmtV>, v: u32) -> bool
    decreases l,
{
    exists|i: int| 0 <= i < l.len() && stmt_reads(#[trigger] l[i], v)
}

/// [`stmt_reads`] inside a switch arm.
pub open spec fn stmt_reads_case(c: CaseGroupV, v: u32) -> bool
    decreases c,
{
    expr_reads_oexpr(c.guard, v) || stmt_reads_seq(c.body, v)
}

/// [`stmt_reads`] over a list.
pub open spec fn stmt_reads_cases(l: Seq<CaseGroupV>, v: u32) -> bool
    decreases l,
{
    exists|i: int| 0 <= i < l.len() && stmt_reads_case(#[trigger] l[i], v)
}

/// [`stmt_reads`] inside a catch clause.
pub open spec fn stmt_reads_catch(c: CatchV, v: u32) -> bool
    decreases c,
{
    (c.var != u32::MAX && c.var == v) || stmt_reads(*c.body, v)
}

/// [`stmt_reads`] over a list.
pub open spec fn stmt_reads_catches(l: Seq<CatchV>, v: u32) -> bool
    decreases l,
{
    exists|i: int| 0 <= i < l.len() && stmt_reads_catch(#[trigger] l[i], v)
}

/// Adds to `out` every local variable whose value `s` may read. Loop and catch
/// variables count as read.
pub fn collect_stmt_reads(s: &Stmt, out: &mut HashSet<u32>)
    ensures
        forall|v: u32|
            #[trigger] final(out)@.contains(v) <==> old(out)@.contains(v) || stmt_reads(s@, v),
    decreases s,
{
    match s {
        Stmt::Block(items) => { collect_stmt_reads_vec(items, out); },
        Stmt::ExprStmt(e) => { collect_expr_reads(e, out); },
        Stmt::LocalDef { init, .. } => { collect_expr_reads_oexpr(init, out); },
        Stmt::Return(e) => { collect_expr_reads_oexpr(e, out); },
        Stmt::Throw(e) => { collect_expr_reads(e, out); },
        Stmt::If { cond, then_stmt, else_stmt } => {
            collect_expr_reads(cond, out);
            collect_stmt_reads(then_stmt, out);
            collect_stmt_reads_opt(else_stmt, out);
        },
        Stmt::While { cond, body } => {
            collect_expr_reads(cond, out);
            collect_stmt_reads(body, out);
        },
        Stmt::DoWhile { body, cond } => {
            collect_stmt_reads(body, out);
            collect_expr_reads(cond, out);
        },
        Stmt::For { init, cond, update, body } => {
            collect_stmt_reads_vec(init, out);
            collect_expr_reads_oexpr(cond, out);
            collect_expr_reads_exprs(update, out);
            collect_stmt_reads(body, out);
        },
        Stmt::ForEach { var, iterable, body, .. } => {
            out.insert(*var);
            collect_expr_reads(iterable, out);
            collect_stmt_reads(body, out);
        },
        Stmt::Switch { selector, cases, default, .. } => {
            collect_expr_reads(selector, out);
            collect_stmt_reads_cases(cases, out);
            collect_stmt_reads_opt(default, out);
        },
        Stmt::Try { body, catches, finally } => {
            collect_stmt_reads(body, out);
            collect_stmt_reads_catches(catches, out);
            collect_stmt_reads_opt(finally, out);
        },
        Stmt::TryWithResources { resources, body, catches, finally } => {
            collect_stmt_reads_vec(resources, out);
            collect_stmt_reads(body, out);
            collect_stmt_reads_catches(catches, out);
            collect_stmt_reads_opt(finally, out);
        },
        Stmt::Synchronized { lock, body } => {
            collect_expr_reads(lock, out);
            collect_stmt_reads(body, out);
        },
        Stmt::MonitorEnter(e) => { collect_expr_reads(e, out); },
        Stmt::MonitorExit(e) => { collect_expr_reads(e, out); },
        Stmt::Label(_) => {  },
        Stmt::Goto(_) => {  },
        Stmt::ClassDecl { .. } => {  },
        Stmt::Labeled { body, .. } => { collect_stmt_reads(body, out); },
        Stmt::Break(_) => {  },
        Stmt::Continue(_) => {  },
        Stmt::Comment(_) => {  },
        Stmt::Assert { cond, msg } => {
            collect_expr_reads(cond, out);
            collect_expr_reads_oexpr(msg, out);
        },
        Stmt::TernaryValue { e } => { collect_expr_reads(e, out); },
        _ => {},
    }
}

/// `collect_stmt_reads` where there is a value.
pub fn collect_stmt_reads_opt(o: &Option<Box<Stmt>>, out: &mut HashSet<u32>)
    ensures
        forall|v: u32|
            #[trigger] final(out)@.contains(v)
                <==> old(out)@.contains(v) || stmt_reads_opt(opt_stmt(*o), v),
    decreases o,
{
    if let Some(x) = o {
        collect_stmt_reads(x, out);
    }
}

/// `collect_stmt_reads` over a list.
#[verifier::loop_isolation(false)]
pub fn collect_stmt_reads_vec(l: &Vec<Stmt>, out: &mut HashSet<u32>)
    ensures
        forall|v: u32|
            #[trigger] final(out)@.contains(v)
                <==> old(out)@.contains(v) || stmt_reads_seq(stmts(l@), v),
    decreases l,
{
    let mut i: usize = 0;
    while i < l.len()
        invariant
            i <= l.len(),
            forall|v: u32| #[trigger] out@.contains(v) <==> old(out)@.contains(v) || exists|j: int|
                0 <= j < i && stmt_reads(#[trigger] stmts(l@)[j], v),
        decreases l.len() - i,
    {
        assert(decreases_to!(l => l@[i as int]));
        assert(stmts(l@)[i as int] == l@[i as int]@);
        collect_stmt_reads(&l[i], out);
        i += 1;
    }
}

/// `collect_stmt_reads` inside a switch arm.
pub fn collect_stmt_reads_case(c: &CaseGroup, out: &mut HashSet<u32>)
    ensures
        forall|v: u32|
            #[trigger] final(out)@.contains(v) <==> old(out)@.contains(v) || stmt_reads_case(c@, v),
    decreases c,
{
    collect_expr_reads_oexpr(&c.guard, out);
    collect_stmt_reads_vec(&c.body, out);
}

/// `collect_stmt_reads` over a list.
#[verifier::loop_isolation(false)]
pub fn collect_stmt_reads_cases(l: &Vec<CaseGroup>, out: &mut HashSet<u32>)
    ensures
        forall|v: u32|
            #[trigger] final(out)@.contains(v)
                <==> old(out)@.contains(v) || stmt_reads_cases(case_groups(l@), v),
    decreases l,
{
    let mut i: usize = 0;
    while i < l.len()
        invariant
            i <= l.len(),
            forall|v: u32| #[trigger] out@.contains(v) <==> old(out)@.contains(v) || exists|j: int|
                0 <= j < i && stmt_reads_case(#[trigger] case_groups(l@)[j], v),
        decreases l.len() - i,
    {
        assert(decreases_to!(l => l@[i as int]));
        assert(case_groups(l@)[i as int] == l@[i as int]@);
        collect_stmt_reads_case(&l[i], out);
        i += 1;
    }
}

/// `collect_stmt_reads` inside a catch clause.
pub fn collect_stmt_reads_catch(c: &Catch, out: &mut HashSet<u32>)
    ensures
        forall|v: u32|
            #[trigger] final(out)@.contains(v)
                <==> old(out)@.contains(v) || stmt_reads_catch(c@, v),
    decreases c,
{
    if c.var != u32::MAX { out.insert(c.var); }
    collect_stmt_reads(&c.body, out);
}

/// `collect_stmt_reads` over a list.
#[verifier::loop_isolation(false)]
pub fn collect_stmt_reads_catches(l: &Vec<Catch>, out: &mut HashSet<u32>)
    ensures
        forall|v: u32|
            #[trigger] final(out)@.contains(v)
                <==> old(out)@.contains(v) || stmt_reads_catches(catch_list(l@), v),
    decreases l,
{
    let mut i: usize = 0;
    while i < l.len()
        invariant
            i <= l.len(),
            forall|v: u32| #[trigger] out@.contains(v) <==> old(out)@.contains(v) || exists|j: int|
                0 <= j < i && stmt_reads_catch(#[trigger] catch_list(l@)[j], v),
        decreases l.len() - i,
    {
        assert(decreases_to!(l => l@[i as int]));
        assert(catch_list(l@)[i as int] == l@[i as int]@);
        collect_stmt_reads_catch(&l[i], out);
        i += 1;
    }
}

} // verus!
