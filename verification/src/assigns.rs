//! Whether a statement assigns, uses or mentions a variable.
use crate::expr::{
    as_local, concat_parts, exprs, is_local, opt_box, opt_expr, opt_exprs, ConcatPart, ConcatPartV,
    Expr, ExprV, LambdaExpr, LambdaExprV,
};
use crate::stmt::{
    case_groups, catch_list, opt_stmt, stmts, CaseGroup, CaseGroupV, Catch, CatchV, Stmt, StmtV,
};
use crate::uses::{collect_decl_use, declares, stmt_uses};
use std::collections::HashSet;
use vstd::prelude::*;

verus! {

broadcast use vstd::std_specs::hash::group_hash_axioms;

/// `e` assigns local `var`, or increments it.
pub open spec fn assigns_in(e: ExprV, var: u32) -> bool
    decreases e,
{
    match e {
        ExprV::New { args, .. } => assigns_in_exprs(args, var),
        ExprV::NewArray { dims, init, .. } => assigns_in_exprs(dims, var)
            || assigns_in_oexprs(init, var),
        ExprV::Field { owner, .. } => assigns_in_opt(owner, var),
        ExprV::Method { owner, args, .. } => assigns_in_opt(owner, var)
            || assigns_in_exprs(args, var),
        ExprV::ArrayIndex { array, index } => assigns_in(*array, var) || assigns_in(*index, var),
        ExprV::Cast { e, .. } => assigns_in(*e, var),
        ExprV::Un { e, .. } => assigns_in(*e, var),
        ExprV::Bin { l, r, .. } => assigns_in(*l, var) || assigns_in(*r, var),
        ExprV::Cond { c, t, f } => assigns_in(*c, var) || assigns_in(*t, var)
            || assigns_in(*f, var),
        ExprV::Assign { target, value, .. } => as_local(*target) == Some(var)
            || assigns_in(*value, var),
        ExprV::PreIncDec { e, .. } => as_local(*e) == Some(var) || assigns_in(*e, var),
        ExprV::PostIncDec { e, .. } => as_local(*e) == Some(var) || assigns_in(*e, var),
        ExprV::AnonNew { args, .. } => assigns_in_exprs(args, var),
        ExprV::NewMultiArray { dims, .. } => assigns_in_exprs(dims, var),
        ExprV::InstanceOf { e, .. } => assigns_in(*e, var),
        ExprV::Lambda(l) => assigns_in_captures(*l, var),
        ExprV::StringConcat(parts) => assigns_in_parts(parts, var),
        ExprV::Invokedynamic { args, .. } => assigns_in_exprs(args, var),
        _ => false,
    }
}

/// [`assigns_in`] inside the captures of a lambda.
pub open spec fn assigns_in_captures(l: LambdaExprV, var: u32) -> bool
    decreases l,
{
    assigns_in_exprs(l.captures, var)
}

/// [`assigns_in`] inside a concatenation piece.
pub open spec fn assigns_in_part(p: ConcatPartV, var: u32) -> bool
    decreases p,
{
    match p {
        ConcatPartV::Str(e) => assigns_in(e, var),
        ConcatPartV::Const(_) => false,
    }
}

/// [`assigns_in`] over a list.
pub open spec fn assigns_in_parts(l: Seq<ConcatPartV>, var: u32) -> bool
    decreases l,
{
    exists|i: int| 0 <= i < l.len() && assigns_in_part(#[trigger] l[i], var)
}

/// [`assigns_in`] where there is a value.
pub open spec fn assigns_in_opt(o: Option<Box<ExprV>>, var: u32) -> bool
    decreases o,
{
    match o {
        Some(x) => assigns_in(*x, var),
        None => false,
    }
}

/// [`assigns_in`] where there is a value.
pub open spec fn assigns_in_oexprs(o: Option<Seq<ExprV>>, var: u32) -> bool
    decreases o,
{
    match o {
        Some(x) => assigns_in_exprs(x, var),
        None => false,
    }
}

/// [`assigns_in`] over a list.
pub open spec fn assigns_in_exprs(l: Seq<ExprV>, var: u32) -> bool
    decreases l,
{
    exists|i: int| 0 <= i < l.len() && assigns_in(#[trigger] l[i], var)
}

/// [`assigns_in`] where there is a value.
pub open spec fn assigns_in_oexpr(o: Option<ExprV>, var: u32) -> bool
    decreases o,
{
    match o {
        Some(x) => assigns_in(x, var),
        None => false,
    }
}

/// Whether `e` assigns local `var`.
pub fn expr_assigns_var(e: &Expr, var: u32) -> (r: bool)
    ensures
        r == assigns_in(e@, var),
    decreases e,
{
    match e {
        Expr::New { args, .. } => expr_assigns_var_exprs(args, var),
        Expr::NewArray { dims, init, .. } => expr_assigns_var_exprs(dims, var)
            || expr_assigns_var_oexprs(init, var),
        Expr::Field { owner, .. } => expr_assigns_var_opt(owner, var),
        Expr::Method { owner, args, .. } => expr_assigns_var_opt(owner, var)
            || expr_assigns_var_exprs(args, var),
        Expr::ArrayIndex { array, index } => expr_assigns_var(array, var)
            || expr_assigns_var(index, var),
        Expr::Cast { e, .. } => expr_assigns_var(e, var),
        Expr::Un { e, .. } => expr_assigns_var(e, var),
        Expr::Bin { l, r, .. } => expr_assigns_var(l, var) || expr_assigns_var(r, var),
        Expr::Cond { c, t, f } => expr_assigns_var(c, var) || expr_assigns_var(t, var)
            || expr_assigns_var(f, var),
        Expr::Assign { target, value, .. } => is_local(target, var) || expr_assigns_var(value, var),
        Expr::PreIncDec { e, .. } => is_local(e, var) || expr_assigns_var(e, var),
        Expr::PostIncDec { e, .. } => is_local(e, var) || expr_assigns_var(e, var),
        Expr::AnonNew { args, .. } => expr_assigns_var_exprs(args, var),
        Expr::NewMultiArray { dims, .. } => expr_assigns_var_exprs(dims, var),
        Expr::InstanceOf { e, .. } => expr_assigns_var(e, var),
        Expr::Lambda(l) => expr_assigns_var_captures(l, var),
        Expr::StringConcat(parts) => expr_assigns_var_parts(parts, var),
        Expr::Invokedynamic { args, .. } => expr_assigns_var_exprs(args, var),
        _ => false,
    }
}

/// `expr_assigns_var` inside the captures of a lambda.
pub fn expr_assigns_var_captures(l: &LambdaExpr, var: u32) -> (r: bool)
    ensures
        r == assigns_in_captures(l@, var),
    decreases l,
{
    expr_assigns_var_exprs(&l.captures, var)
}

/// `expr_assigns_var` inside a concatenation piece.
pub fn expr_assigns_var_part(p: &ConcatPart, var: u32) -> (r: bool)
    ensures
        r == assigns_in_part(p@, var),
    decreases p,
{
    match p {
        ConcatPart::Str(e) => expr_assigns_var(e, var),
        ConcatPart::Const(_) => false,
    }
}

/// `expr_assigns_var` over a list.
#[verifier::loop_isolation(false)]
pub fn expr_assigns_var_parts(l: &Vec<ConcatPart>, var: u32) -> (r: bool)
    ensures
        r == assigns_in_parts(concat_parts(l@), var),
    decreases l,
{
    let mut i: usize = 0;
    while i < l.len()
        invariant
            i <= l.len(),
            forall|j: int| 0 <= j < i ==> !(assigns_in_part(#[trigger] concat_parts(l@)[j], var)),
        decreases l.len() - i,
    {
        assert(decreases_to!(l => l@[i as int]));
        assert(concat_parts(l@)[i as int] == l@[i as int]@);
        if expr_assigns_var_part(&l[i], var) {
            return true;
        }
        i += 1;
    }
    false
}

/// `expr_assigns_var` where there is a value.
pub fn expr_assigns_var_opt(o: &Option<Box<Expr>>, var: u32) -> (r: bool)
    ensures
        r == assigns_in_opt(opt_box(*o), var),
    decreases o,
{
    match o {
        Some(x) => expr_assigns_var(x, var),
        None => false,
    }
}

/// `expr_assigns_var` where there is a value.
pub fn expr_assigns_var_oexprs(o: &Option<Vec<Expr>>, var: u32) -> (r: bool)
    ensures
        r == assigns_in_oexprs(opt_exprs(*o), var),
    decreases o,
{
    match o {
        Some(x) => expr_assigns_var_exprs(x, var),
        None => false,
    }
}

/// `expr_assigns_var` over a list.
#[verifier::loop_isolation(false)]
pub fn expr_assigns_var_exprs(l: &Vec<Expr>, var: u32) -> (r: bool)
    ensures
        r == assigns_in_exprs(exprs(l@), var),
    decreases l,
{
    let mut i: usize = 0;
    while i < l.len()
        invariant
            i <= l.len(),
            forall|j: int| 0 <= j < i ==> !(assigns_in(#[trigger] exprs(l@)[j], var)),
        decreases l.len() - i,
    {
        assert(decreases_to!(l => l@[i as int]));
        assert(exprs(l@)[i as int] == l@[i as int]@);
        if expr_assigns_var(&l[i], var) {
            return true;
        }
        i += 1;
    }
    false
}

/// `expr_assigns_var` where there is a value.
pub fn expr_assigns_var_oexpr(o: &Option<Expr>, var: u32) -> (r: bool)
    ensures
        r == assigns_in_oexpr(opt_expr(*o), var),
    decreases o,
{
    match o {
        Some(x) => expr_assigns_var(x, var),
        None => false,
    }
}

/// `s` assigns local `var`, or increments it.
pub open spec fn stmt_assigns(s: StmtV, var: u32) -> bool
    decreases s,
{
    match s {
        StmtV::Block(items) => stmt_assigns_seq(items, var),
        StmtV::ExprStmt(e) => assigns_in(e, var),
        StmtV::LocalDef { init, .. } => assigns_in_oexpr(init, var),
        StmtV::Return(e) => assigns_in_oexpr(e, var),
        StmtV::Throw(e) => assigns_in(e, var),
        StmtV::If { cond, then_stmt, else_stmt } => assigns_in(cond, var)
            || stmt_assigns(*then_stmt, var) || stmt_assigns_opt(else_stmt, var),
        StmtV::While { cond, body } => assigns_in(cond, var) || stmt_assigns(*body, var),
        StmtV::DoWhile { body, cond } => stmt_assigns(*body, var) || assigns_in(cond, var),
        StmtV::For { init, cond, update, body } => stmt_assigns_seq(init, var)
            || assigns_in_oexpr(cond, var) || assigns_in_exprs(update, var)
            || stmt_assigns(*body, var),
        StmtV::ForEach { iterable, body, .. } => assigns_in(iterable, var)
            || stmt_assigns(*body, var),
        StmtV::Switch { selector, cases, default, .. } => assigns_in(selector, var)
            || stmt_assigns_cases(cases, var) || stmt_assigns_opt(default, var),
        StmtV::Try { body, catches, finally } => stmt_assigns(*body, var)
            || stmt_assigns_catches(catches, var) || stmt_assigns_opt(finally, var),
        StmtV::TryWithResources { resources, body, catches, finally } => stmt_assigns_seq(
            resources,
            var,
        )
            || stmt_assigns(*body, var)
            || stmt_assigns_catches(catches, var) || stmt_assigns_opt(finally, var),
        StmtV::Synchronized { lock, body } => assigns_in(lock, var) || stmt_assigns(*body, var),
        StmtV::Label(_) => false,
        StmtV::Goto(_) => false,
        StmtV::ClassDecl { .. } => false,
        StmtV::Labeled { body, .. } => stmt_assigns(*body, var),
        StmtV::Break(_) => false,
        StmtV::Continue(_) => false,
        StmtV::Comment(_) => false,
        StmtV::Assert { cond, msg } => assigns_in(cond, var) || assigns_in_oexpr(msg, var),
        StmtV::TernaryValue { e } => assigns_in(e, var),
        StmtV::MonitorEnter(e) => assigns_in(e, var),
        StmtV::MonitorExit(e) => assigns_in(e, var),
        _ => false,
    }
}

/// [`stmt_assigns`] where there is a value.
pub open spec fn stmt_assigns_opt(o: Option<Box<StmtV>>, var: u32) -> bool
    decreases o,
{
    match o {
        Some(x) => stmt_assigns(*x, var),
        None => false,
    }
}

/// [`stmt_assigns`] over a list.
pub open spec fn stmt_assigns_seq(l: Seq<StmtV>, var: u32) -> bool
    decreases l,
{
    exists|i: int| 0 <= i < l.len() && stmt_assigns(#[trigger] l[i], var)
}

/// [`stmt_assigns`] inside a switch arm.
pub open spec fn stmt_assigns_case(c: CaseGroupV, var: u32) -> bool
    decreases c,
{
    assigns_in_oexpr(c.guard, var) || stmt_assigns_seq(c.body, var)
}

/// [`stmt_assigns`] over a list.
pub open spec fn stmt_assigns_cases(l: Seq<CaseGroupV>, var: u32) -> bool
    decreases l,
{
    exists|i: int| 0 <= i < l.len() && stmt_assigns_case(#[trigger] l[i], var)
}

/// [`stmt_assigns`] inside a catch clause.
pub open spec fn stmt_assigns_catch(c: CatchV, var: u32) -> bool
    decreases c,
{
    stmt_assigns(*c.body, var)
}

/// [`stmt_assigns`] over a list.
pub open spec fn stmt_assigns_catches(l: Seq<CatchV>, var: u32) -> bool
    decreases l,
{
    exists|i: int| 0 <= i < l.len() && stmt_assigns_catch(#[trigger] l[i], var)
}

/// Whether `s` assigns local `var`.
pub fn stmt_assigns_var(s: &Stmt, var: u32) -> (r: bool)
    ensures
        r == stmt_assigns(s@, var),
    decreases s,
{
    match s {
        Stmt::Block(items) => stmt_assigns_var_vec(items, var),
        Stmt::ExprStmt(e) => expr_assigns_var(e, var),
        Stmt::LocalDef { init, .. } => expr_assigns_var_oexpr(init, var),
        Stmt::Return(e) => expr_assigns_var_oexpr(e, var),
        Stmt::Throw(e) => expr_assigns_var(e, var),
        Stmt::If { cond, then_stmt, else_stmt } => expr_assigns_var(cond, var)
            || stmt_assigns_var(then_stmt, var) || stmt_assigns_var_opt(else_stmt, var),
        Stmt::While { cond, body } => expr_assigns_var(cond, var) || stmt_assigns_var(body, var),
        Stmt::DoWhile { body, cond } => stmt_assigns_var(body, var) || expr_assigns_var(cond, var),
        Stmt::For { init, cond, update, body } => stmt_assigns_var_vec(init, var)
            || expr_assigns_var_oexpr(cond, var) || expr_assigns_var_exprs(update, var)
            || stmt_assigns_var(body, var),
        Stmt::ForEach { iterable, body, .. } => expr_assigns_var(iterable, var)
            || stmt_assigns_var(body, var),
        Stmt::Switch { selector, cases, default, .. } => expr_assigns_var(selector, var)
            || stmt_assigns_var_cases(cases, var) || stmt_assigns_var_opt(default, var),
        Stmt::Try { body, catches, finally } => stmt_assigns_var(body, var)
            || stmt_assigns_var_catches(catches, var) || stmt_assigns_var_opt(finally, var),
        Stmt::TryWithResources { resources, body, catches, finally } => stmt_assigns_var_vec(
            resources,
            var,
        )
            || stmt_assigns_var(body, var)
            || stmt_assigns_var_catches(catches, var) || stmt_assigns_var_opt(finally, var),
        Stmt::Synchronized { lock, body } => expr_assigns_var(lock, var)
            || stmt_assigns_var(body, var),
        Stmt::Label(_) => false,
        Stmt::Goto(_) => false,
        Stmt::ClassDecl { .. } => false,
        Stmt::Labeled { body, .. } => stmt_assigns_var(body, var),
        Stmt::Break(_) => false,
        Stmt::Continue(_) => false,
        Stmt::Comment(_) => false,
        Stmt::Assert { cond, msg } => expr_assigns_var(cond, var)
            || expr_assigns_var_oexpr(msg, var),
        Stmt::TernaryValue { e } => expr_assigns_var(e, var),
        Stmt::MonitorEnter(e) => expr_assigns_var(e, var),
        Stmt::MonitorExit(e) => expr_assigns_var(e, var),
        _ => false,
    }
}

/// `stmt_assigns_var` where there is a value.
pub fn stmt_assigns_var_opt(o: &Option<Box<Stmt>>, var: u32) -> (r: bool)
    ensures
        r == stmt_assigns_opt(opt_stmt(*o), var),
    decreases o,
{
    match o {
        Some(x) => stmt_assigns_var(x, var),
        None => false,
    }
}

/// `stmt_assigns_var` over a list.
#[verifier::loop_isolation(false)]
pub fn stmt_assigns_var_vec(l: &Vec<Stmt>, var: u32) -> (r: bool)
    ensures
        r == stmt_assigns_seq(stmts(l@), var),
    decreases l,
{
    let mut i: usize = 0;
    while i < l.len()
        invariant
            i <= l.len(),
            forall|j: int| 0 <= j < i ==> !(stmt_assigns(#[trigger] stmts(l@)[j], var)),
        decreases l.len() - i,
    {
        assert(decreases_to!(l => l@[i as int]));
        assert(stmts(l@)[i as int] == l@[i as int]@);
        if stmt_assigns_var(&l[i], var) {
            return true;
        }
        i += 1;
    }
    false
}

/// `stmt_assigns_var` inside a switch arm.
pub fn stmt_assigns_var_case(c: &CaseGroup, var: u32) -> (r: bool)
    ensures
        r == stmt_assigns_case(c@, var),
    decreases c,
{
    expr_assigns_var_oexpr(&c.guard, var) || stmt_assigns_var_vec(&c.body, var)
}

/// `stmt_assigns_var` over a list.
#[verifier::loop_isolation(false)]
pub fn stmt_assigns_var_cases(l: &Vec<CaseGroup>, var: u32) -> (r: bool)
    ensures
        r == stmt_assigns_cases(case_groups(l@), var),
    decreases l,
{
    let mut i: usize = 0;
    while i < l.len()
        invariant
            i <= l.len(),
            forall|j: int| 0 <= j < i ==> !(stmt_assigns_case(#[trigger] case_groups(l@)[j], var)),
        decreases l.len() - i,
    {
        assert(decreases_to!(l => l@[i as int]));
        assert(case_groups(l@)[i as int] == l@[i as int]@);
        if stmt_assigns_var_case(&l[i], var) {
            return true;
        }
        i += 1;
    }
    false
}

/// `stmt_assigns_var` inside a catch clause.
pub fn stmt_assigns_var_catch(c: &Catch, var: u32) -> (r: bool)
    ensures
        r == stmt_assigns_catch(c@, var),
    decreases c,
{
    stmt_assigns_var(&c.body, var)
}

/// `stmt_assigns_var` over a list.
#[verifier::loop_isolation(false)]
pub fn stmt_assigns_var_catches(l: &Vec<Catch>, var: u32) -> (r: bool)
    ensures
        r == stmt_assigns_catches(catch_list(l@), var),
    decreases l,
{
    let mut i: usize = 0;
    while i < l.len()
        invariant
            i <= l.len(),
            forall|j: int| 0 <= j < i ==> !(stmt_assigns_catch(#[trigger] catch_list(l@)[j], var)),
        decreases l.len() - i,
    {
        assert(decreases_to!(l => l@[i as int]));
        assert(catch_list(l@)[i as int] == l@[i as int]@);
        if stmt_assigns_var_catch(&l[i], var) {
            return true;
        }
        i += 1;
    }
    false
}

/// `e` uses local `var`.
pub open spec fn uses_in(e: ExprV, var: u32) -> bool
    decreases e,
{
    match e {
        ExprV::Local { .. } => as_local(e) == Some(var),
        ExprV::New { args, .. } => uses_in_exprs(args, var),
        ExprV::Field { owner, .. } => uses_in_opt(owner, var),
        ExprV::Method { owner, args, .. } => uses_in_opt(owner, var) || uses_in_exprs(args, var),
        ExprV::ArrayIndex { array, index } => uses_in(*array, var) || uses_in(*index, var),
        ExprV::Cast { e, .. } => uses_in(*e, var),
        ExprV::InstanceOf { e, .. } => uses_in(*e, var),
        ExprV::Un { e, .. } => uses_in(*e, var),
        ExprV::Bin { l, r, .. } => uses_in(*l, var) || uses_in(*r, var),
        ExprV::Cond { c, t, f } => uses_in(*c, var) || uses_in(*t, var) || uses_in(*f, var),
        ExprV::Assign { target, value, .. } => uses_in(*target, var) || uses_in(*value, var),
        ExprV::PreIncDec { e, .. } => uses_in(*e, var),
        ExprV::PostIncDec { e, .. } => uses_in(*e, var),
        ExprV::NewArray { dims, init, .. } => uses_in_exprs(dims, var) || uses_in_oexprs(init, var),
        ExprV::NewMultiArray { dims, .. } => uses_in_exprs(dims, var),
        ExprV::Lambda(l) => uses_in_captures(*l, var),
        ExprV::StringConcat(parts) => uses_in_parts(parts, var),
        ExprV::Invokedynamic { args, .. } => uses_in_exprs(args, var),
        ExprV::AnonNew { args, .. } => uses_in_exprs(args, var),
        _ => false,
    }
}

/// [`uses_in`] where there is a value.
pub open spec fn uses_in_oexprs(o: Option<Seq<ExprV>>, var: u32) -> bool
    decreases o,
{
    match o {
        Some(x) => uses_in_exprs(x, var),
        None => false,
    }
}

/// [`uses_in`] inside the captures of a lambda.
pub open spec fn uses_in_captures(l: LambdaExprV, var: u32) -> bool
    decreases l,
{
    uses_in_exprs(l.captures, var)
}

/// [`uses_in`] inside a concatenation piece.
pub open spec fn uses_in_part(p: ConcatPartV, var: u32) -> bool
    decreases p,
{
    match p {
        ConcatPartV::Str(e) => uses_in(e, var),
        ConcatPartV::Const(_) => false,
    }
}

/// [`uses_in`] over a list.
pub open spec fn uses_in_parts(l: Seq<ConcatPartV>, var: u32) -> bool
    decreases l,
{
    exists|i: int| 0 <= i < l.len() && uses_in_part(#[trigger] l[i], var)
}

/// [`uses_in`] where there is a value.
pub open spec fn uses_in_opt(o: Option<Box<ExprV>>, var: u32) -> bool
    decreases o,
{
    match o {
        Some(x) => uses_in(*x, var),
        None => false,
    }
}

/// [`uses_in`] over a list.
pub open spec fn uses_in_exprs(l: Seq<ExprV>, var: u32) -> bool
    decreases l,
{
    exists|i: int| 0 <= i < l.len() && uses_in(#[trigger] l[i], var)
}

/// [`uses_in`] where there is a value.
pub open spec fn uses_in_oexpr(o: Option<ExprV>, var: u32) -> bool
    decreases o,
{
    match o {
        Some(x) => uses_in(x, var),
        None => false,
    }
}

/// Whether `e` uses local `var`.
pub fn expr_uses_var(e: &Expr, var: u32) -> (r: bool)
    ensures
        r == uses_in(e@, var),
    decreases e,
{
    match e {
        Expr::Local { .. } => is_local(e, var),
        Expr::New { args, .. } => expr_uses_var_exprs(args, var),
        Expr::Field { owner, .. } => expr_uses_var_opt(owner, var),
        Expr::Method { owner, args, .. } => expr_uses_var_opt(owner, var)
            || expr_uses_var_exprs(args, var),
        Expr::ArrayIndex { array, index } => expr_uses_var(array, var) || expr_uses_var(index, var),
        Expr::Cast { e, .. } => expr_uses_var(e, var),
        Expr::InstanceOf { e, .. } => expr_uses_var(e, var),
        Expr::Un { e, .. } => expr_uses_var(e, var),
        Expr::Bin { l, r, .. } => expr_uses_var(l, var) || expr_uses_var(r, var),
        Expr::Cond { c, t, f } => expr_uses_var(c, var) || expr_uses_var(t, var)
            || expr_uses_var(f, var),
        Expr::Assign { target, value, .. } => expr_uses_var(target, var)
            || expr_uses_var(value, var),
        Expr::PreIncDec { e, .. } => expr_uses_var(e, var),
        Expr::PostIncDec { e, .. } => expr_uses_var(e, var),
        Expr::NewArray { dims, init, .. } => expr_uses_var_exprs(dims, var)
            || expr_uses_var_oexprs(init, var),
        Expr::NewMultiArray { dims, .. } => expr_uses_var_exprs(dims, var),
        Expr::Lambda(l) => expr_uses_var_captures(l, var),
        Expr::StringConcat(parts) => expr_uses_var_parts(parts, var),
        Expr::Invokedynamic { args, .. } => expr_uses_var_exprs(args, var),
        Expr::AnonNew { args, .. } => expr_uses_var_exprs(args, var),
        _ => false,
    }
}

/// `expr_uses_var` where there is a value.
pub fn expr_uses_var_oexprs(o: &Option<Vec<Expr>>, var: u32) -> (r: bool)
    ensures
        r == uses_in_oexprs(opt_exprs(*o), var),
    decreases o,
{
    match o {
        Some(x) => expr_uses_var_exprs(x, var),
        None => false,
    }
}

/// `expr_uses_var` inside the captures of a lambda.
pub fn expr_uses_var_captures(l: &LambdaExpr, var: u32) -> (r: bool)
    ensures
        r == uses_in_captures(l@, var),
    decreases l,
{
    expr_uses_var_exprs(&l.captures, var)
}

/// `expr_uses_var` inside a concatenation piece.
pub fn expr_uses_var_part(p: &ConcatPart, var: u32) -> (r: bool)
    ensures
        r == uses_in_part(p@, var),
    decreases p,
{
    match p {
        ConcatPart::Str(e) => expr_uses_var(e, var),
        ConcatPart::Const(_) => false,
    }
}

/// `expr_uses_var` over a list.
#[verifier::loop_isolation(false)]
pub fn expr_uses_var_parts(l: &Vec<ConcatPart>, var: u32) -> (r: bool)
    ensures
        r == uses_in_parts(concat_parts(l@), var),
    decreases l,
{
    let mut i: usize = 0;
    while i < l.len()
        invariant
            i <= l.len(),
            forall|j: int| 0 <= j < i ==> !(uses_in_part(#[trigger] concat_parts(l@)[j], var)),
        decreases l.len() - i,
    {
        assert(decreases_to!(l => l@[i as int]));
        assert(concat_parts(l@)[i as int] == l@[i as int]@);
        if expr_uses_var_part(&l[i], var) {
            return true;
        }
        i += 1;
    }
    false
}

/// `expr_uses_var` where there is a value.
pub fn expr_uses_var_opt(o: &Option<Box<Expr>>, var: u32) -> (r: bool)
    ensures
        r == uses_in_opt(opt_box(*o), var),
    decreases o,
{
    match o {
        Some(x) => expr_uses_var(x, var),
        None => false,
    }
}

/// `expr_uses_var` over a list.
#[verifier::loop_isolation(false)]
pub fn expr_uses_var_exprs(l: &Vec<Expr>, var: u32) -> (r: bool)
    ensures
        r == uses_in_exprs(exprs(l@), var),
    decreases l,
{
    let mut i: usize = 0;
    while i < l.len()
        invariant
            i <= l.len(),
            forall|j: int| 0 <= j < i ==> !(uses_in(#[trigger] exprs(l@)[j], var)),
        decreases l.len() - i,
    {
        assert(decreases_to!(l => l@[i as int]));
        assert(exprs(l@)[i as int] == l@[i as int]@);
        if expr_uses_var(&l[i], var) {
            return true;
        }
        i += 1;
    }
    false
}

/// `expr_uses_var` where there is a value.
pub fn expr_uses_var_oexpr(o: &Option<Expr>, var: u32) -> (r: bool)
    ensures
        r == uses_in_oexpr(opt_expr(*o), var),
    decreases o,
{
    match o {
        Some(x) => expr_uses_var(x, var),
        None => false,
    }
}

/// `s` uses local `var`.
pub open spec fn stmt_uses_local(s: StmtV, var: u32) -> bool
    decreases s,
{
    match s {
        StmtV::Block(items) => stmt_uses_local_seq(items, var),
        StmtV::ExprStmt(e) => uses_in(e, var),
        StmtV::LocalDef { init, .. } => s->LocalDef_var == var || uses_in_oexpr(init, var),
        StmtV::Return(e) => uses_in_oexpr(e, var),
        StmtV::Throw(e) => uses_in(e, var),
        StmtV::If { cond, then_stmt, else_stmt } => uses_in(cond, var)
            || stmt_uses_local(*then_stmt, var) || stmt_uses_local_opt(else_stmt, var),
        StmtV::While { cond, body } => uses_in(cond, var) || stmt_uses_local(*body, var),
        StmtV::DoWhile { body, cond } => stmt_uses_local(*body, var) || uses_in(cond, var),
        StmtV::For { init, cond, update, body } => stmt_uses_local_seq(init, var)
            || uses_in_oexpr(cond, var) || uses_in_exprs(update, var)
            || stmt_uses_local(*body, var),
        StmtV::Try { body, catches, finally } => stmt_uses_local(*body, var)
            || stmt_uses_local_catches(catches, var) || stmt_uses_local_opt(finally, var),
        StmtV::TryWithResources { resources, body, catches, finally } => stmt_uses_local_seq(
            resources,
            var,
        )
            || stmt_uses_local(*body, var)
            || stmt_uses_local_catches(catches, var) || stmt_uses_local_opt(finally, var),
        StmtV::ForEach { iterable, body, .. } => uses_in(iterable, var)
            || stmt_uses_local(*body, var),
        StmtV::Switch { selector, cases, default, .. } => uses_in(selector, var)
            || stmt_uses_local_cases(cases, var) || stmt_uses_local_opt(default, var),
        StmtV::Synchronized { lock, body } => uses_in(lock, var) || stmt_uses_local(*body, var),
        StmtV::Labeled { body, .. } => stmt_uses_local(*body, var),
        StmtV::Assert { cond, msg } => uses_in(cond, var) || uses_in_oexpr(msg, var),
        StmtV::TernaryValue { e } => uses_in(e, var),
        StmtV::MonitorEnter(e) => uses_in(e, var),
        StmtV::MonitorExit(e) => uses_in(e, var),
        _ => false,
    }
}

/// [`stmt_uses_local`] inside a switch arm.
pub open spec fn stmt_uses_local_case(c: CaseGroupV, var: u32) -> bool
    decreases c,
{
    uses_in_oexpr(c.guard, var) || stmt_uses_local_seq(c.body, var)
}

/// [`stmt_uses_local`] over a list.
pub open spec fn stmt_uses_local_cases(l: Seq<CaseGroupV>, var: u32) -> bool
    decreases l,
{
    exists|i: int| 0 <= i < l.len() && stmt_uses_local_case(#[trigger] l[i], var)
}

/// [`stmt_uses_local`] where there is a value.
pub open spec fn stmt_uses_local_opt(o: Option<Box<StmtV>>, var: u32) -> bool
    decreases o,
{
    match o {
        Some(x) => stmt_uses_local(*x, var),
        None => false,
    }
}

/// [`stmt_uses_local`] over a list.
pub open spec fn stmt_uses_local_seq(l: Seq<StmtV>, var: u32) -> bool
    decreases l,
{
    exists|i: int| 0 <= i < l.len() && stmt_uses_local(#[trigger] l[i], var)
}

/// [`stmt_uses_local`] inside a catch clause.
pub open spec fn stmt_uses_local_catch(c: CatchV, var: u32) -> bool
    decreases c,
{
    stmt_uses_local(*c.body, var)
}

/// [`stmt_uses_local`] over a list.
pub open spec fn stmt_uses_local_catches(l: Seq<CatchV>, var: u32) -> bool
    decreases l,
{
    exists|i: int| 0 <= i < l.len() && stmt_uses_local_catch(#[trigger] l[i], var)
}

/// Whether `s` uses local `var`.
pub fn stmt_uses_var(s: &Stmt, var: u32) -> (r: bool)
    ensures
        r == stmt_uses_local(s@, var),
    decreases s,
{
    match s {
        Stmt::Block(items) => stmt_uses_var_vec(items, var),
        Stmt::ExprStmt(e) => expr_uses_var(e, var),
        Stmt::LocalDef { init, .. } => declared_is(s, var) || expr_uses_var_oexpr(init, var),
        Stmt::Return(e) => expr_uses_var_oexpr(e, var),
        Stmt::Throw(e) => expr_uses_var(e, var),
        Stmt::If { cond, then_stmt, else_stmt } => expr_uses_var(cond, var)
            || stmt_uses_var(then_stmt, var) || stmt_uses_var_opt(else_stmt, var),
        Stmt::While { cond, body } => expr_uses_var(cond, var) || stmt_uses_var(body, var),
        Stmt::DoWhile { body, cond } => stmt_uses_var(body, var) || expr_uses_var(cond, var),
        Stmt::For { init, cond, update, body } => stmt_uses_var_vec(init, var)
            || expr_uses_var_oexpr(cond, var) || expr_uses_var_exprs(update, var)
            || stmt_uses_var(body, var),
        Stmt::Try { body, catches, finally } => stmt_uses_var(body, var)
            || stmt_uses_var_catches(catches, var) || stmt_uses_var_opt(finally, var),
        Stmt::TryWithResources { resources, body, catches, finally } => stmt_uses_var_vec(
            resources,
            var,
        )
            || stmt_uses_var(body, var)
            || stmt_uses_var_catches(catches, var) || stmt_uses_var_opt(finally, var),
        Stmt::ForEach { iterable, body, .. } => expr_uses_var(iterable, var)
            || stmt_uses_var(body, var),
        Stmt::Switch { selector, cases, default, .. } => expr_uses_var(selector, var)
            || stmt_uses_var_cases(cases, var) || stmt_uses_var_opt(default, var),
        Stmt::Synchronized { lock, body } => expr_uses_var(lock, var) || stmt_uses_var(body, var),
        Stmt::Labeled { body, .. } => stmt_uses_var(body, var),
        Stmt::Assert { cond, msg } => expr_uses_var(cond, var) || expr_uses_var_oexpr(msg, var),
        Stmt::TernaryValue { e } => expr_uses_var(e, var),
        Stmt::MonitorEnter(e) => expr_uses_var(e, var),
        Stmt::MonitorExit(e) => expr_uses_var(e, var),
        _ => false,
    }
}

/// `stmt_uses_var` inside a switch arm.
pub fn stmt_uses_var_case(c: &CaseGroup, var: u32) -> (r: bool)
    ensures
        r == stmt_uses_local_case(c@, var),
    decreases c,
{
    expr_uses_var_oexpr(&c.guard, var) || stmt_uses_var_vec(&c.body, var)
}

/// `stmt_uses_var` over a list.
#[verifier::loop_isolation(false)]
pub fn stmt_uses_var_cases(l: &Vec<CaseGroup>, var: u32) -> (r: bool)
    ensures
        r == stmt_uses_local_cases(case_groups(l@), var),
    decreases l,
{
    let mut i: usize = 0;
    while i < l.len()
        invariant
            i <= l.len(),
            forall|j: int|
                0 <= j < i ==> !(stmt_uses_local_case(#[trigger] case_groups(l@)[j], var)),
        decreases l.len() - i,
    {
        assert(decreases_to!(l => l@[i as int]));
        assert(case_groups(l@)[i as int] == l@[i as int]@);
        if stmt_uses_var_case(&l[i], var) {
            return true;
        }
        i += 1;
    }
    false
}

/// `stmt_uses_var` where there is a value.
pub fn stmt_uses_var_opt(o: &Option<Box<Stmt>>, var: u32) -> (r: bool)
    ensures
        r == stmt_uses_local_opt(opt_stmt(*o), var),
    decreases o,
{
    match o {
        Some(x) => stmt_uses_var(x, var),
        None => false,
    }
}

/// `stmt_uses_var` over a list.
#[verifier::loop_isolation(false)]
pub fn stmt_uses_var_vec(l: &Vec<Stmt>, var: u32) -> (r: bool)
    ensures
        r == stmt_uses_local_seq(stmts(l@), var),
    decreases l,
{
    let mut i: usize = 0;
    while i < l.len()
        invariant
            i <= l.len(),
            forall|j: int| 0 <= j < i ==> !(stmt_uses_local(#[trigger] stmts(l@)[j], var)),
        decreases l.len() - i,
    {
        assert(decreases_to!(l => l@[i as int]));
        assert(stmts(l@)[i as int] == l@[i as int]@);
        if stmt_uses_var(&l[i], var) {
            return true;
        }
        i += 1;
    }
    false
}

/// `stmt_uses_var` inside a catch clause.
pub fn stmt_uses_var_catch(c: &Catch, var: u32) -> (r: bool)
    ensures
        r == stmt_uses_local_catch(c@, var),
    decreases c,
{
    stmt_uses_var(&c.body, var)
}

/// `stmt_uses_var` over a list.
#[verifier::loop_isolation(false)]
pub fn stmt_uses_var_catches(l: &Vec<Catch>, var: u32) -> (r: bool)
    ensures
        r == stmt_uses_local_catches(catch_list(l@), var),
    decreases l,
{
    let mut i: usize = 0;
    while i < l.len()
        invariant
            i <= l.len(),
            forall|j: int|
                0 <= j < i ==> !(stmt_uses_local_catch(#[trigger] catch_list(l@)[j], var)),
        decreases l.len() - i,
    {
        assert(decreases_to!(l => l@[i as int]));
        assert(catch_list(l@)[i as int] == l@[i as int]@);
        if stmt_uses_var_catch(&l[i], var) {
            return true;
        }
        i += 1;
    }
    false
}

/// Whether `s` declares `var` itself.
pub fn declared_is(s: &Stmt, var: u32) -> (r: bool)
    ensures
        r == (s@ matches StmtV::LocalDef { var: v, .. } && v == var),
{
    match s {
        Stmt::LocalDef { var: v, .. } => *v == var,
        _ => false,
    }
}

/// `s` declares or uses local `var`.
pub open spec fn mentions(s: StmtV, var: u32) -> bool {
    declares(s, var) || stmt_uses(s, var)
}

/// Whether `s` declares or uses local `var`.
pub fn mentions_var(s: &Stmt, var: u32) -> (r: bool)
    ensures
        r == mentions(s@, var),
{
    let mut d: HashSet<u32> = HashSet::new();
    let mut u: HashSet<u32> = HashSet::new();
    collect_decl_use(s, &mut d, &mut u);
    d.contains(&var) || u.contains(&var)
}

} // verus!
