//! Variables that lambdas and anonymous classes capture, and those that are given
//! `null`.
use crate::expr::{
    as_local, concat_parts, exprs, is_local, opt_box, opt_expr, opt_exprs, ConcatPart, ConcatPartV,
    ConstVal, ConstValV, Expr, ExprV, LambdaExpr, LambdaExprV,
};
use crate::stmt::{
    case_groups, catch_list, opt_stmt, stmts, CaseGroup, CaseGroupV, Catch, CatchV, Stmt, StmtV,
};
use crate::text::{decimal_digit, is_decimal_digit};
use vstd::prelude::*;

verus! {

/// `e` refers to local `v`.
pub open spec fn refs(e: ExprV, v: u32) -> bool
    decreases e,
{
    match e {
        ExprV::New { args, .. } => refs_exprs(args, v),
        ExprV::NewArray { dims, init, .. } => refs_exprs(dims, v) || refs_oexprs(init, v),
        ExprV::Field { owner, .. } => refs_opt(owner, v),
        ExprV::Method { owner, args, .. } => refs_opt(owner, v) || refs_exprs(args, v),
        ExprV::ArrayIndex { array, index } => refs(*array, v) || refs(*index, v),
        ExprV::Cast { e, .. } => refs(*e, v),
        ExprV::InstanceOf { e, .. } => refs(*e, v),
        ExprV::Un { e, .. } => refs(*e, v),
        ExprV::Bin { l, r, .. } => refs(*l, v) || refs(*r, v),
        ExprV::Cond { c, t, f } => refs(*c, v) || refs(*t, v) || refs(*f, v),
        ExprV::Assign { target, value, .. } => refs(*target, v) || refs(*value, v),
        ExprV::PreIncDec { e, .. } => refs(*e, v),
        ExprV::PostIncDec { e, .. } => refs(*e, v),
        ExprV::Lambda(l) => refs_captures(*l, v),
        ExprV::StringConcat(parts) => refs_parts(parts, v),
        ExprV::Invokedynamic { args, .. } => refs_exprs(args, v),
        ExprV::AnonNew { args, .. } => refs_exprs(args, v),
        ExprV::NewMultiArray { dims, .. } => refs_exprs(dims, v),
        _ => false,
    }
}

/// [`refs`] where there is a value.
pub open spec fn refs_opt(o: Option<Box<ExprV>>, v: u32) -> bool
    decreases o,
{
    match o {
        Some(x) => refs(*x, v),
        None => false,
    }
}

/// [`refs`] where there is a value.
pub open spec fn refs_oexprs(o: Option<Seq<ExprV>>, v: u32) -> bool
    decreases o,
{
    match o {
        Some(x) => refs_exprs(x, v),
        None => false,
    }
}

/// [`refs`] inside the captures of a lambda.
pub open spec fn refs_captures(l: LambdaExprV, v: u32) -> bool
    decreases l,
{
    refs_exprs(l.captures, v)
}

/// [`refs`] over a list.
pub open spec fn refs_exprs(l: Seq<ExprV>, v: u32) -> bool
    decreases l,
{
    exists|i: int| 0 <= i < l.len() && refs(#[trigger] l[i], v)
}

/// [`refs`] inside a concatenation piece.
pub open spec fn refs_part(p: ConcatPartV, v: u32) -> bool
    decreases p,
{
    match p {
        ConcatPartV::Str(e) => refs(e, v),
        ConcatPartV::Const(_) => false,
    }
}

/// [`refs`] over a list.
pub open spec fn refs_parts(l: Seq<ConcatPartV>, v: u32) -> bool
    decreases l,
{
    exists|i: int| 0 <= i < l.len() && refs_part(#[trigger] l[i], v)
}

/// Whether `e` refers to local `v`.
pub fn refs_var(e: &Expr, v: u32) -> (r: bool)
    ensures
        r == refs(e@, v),
    decreases e,
{
    match e {
        Expr::New { args, .. } => refs_var_exprs(args, v),
        Expr::NewArray { dims, init, .. } => refs_var_exprs(dims, v)
            || refs_var_oexprs(init, v),
        Expr::Field { owner, .. } => refs_var_opt(owner, v),
        Expr::Method { owner, args, .. } => refs_var_opt(owner, v)
            || refs_var_exprs(args, v),
        Expr::ArrayIndex { array, index } => refs_var(array, v) || refs_var(index, v),
        Expr::Cast { e, .. } => refs_var(e, v),
        Expr::InstanceOf { e, .. } => refs_var(e, v),
        Expr::Un { e, .. } => refs_var(e, v),
        Expr::Bin { l, r, .. } => refs_var(l, v) || refs_var(r, v),
        Expr::Cond { c, t, f } => refs_var(c, v) || refs_var(t, v) || refs_var(f, v),
        Expr::Assign { target, value, .. } => refs_var(target, v) || refs_var(value, v),
        Expr::PreIncDec { e, .. } => refs_var(e, v),
        Expr::PostIncDec { e, .. } => refs_var(e, v),
        Expr::Lambda(l) => refs_var_captures(l, v),
        Expr::StringConcat(parts) => refs_var_parts(parts, v),
        Expr::Invokedynamic { args, .. } => refs_var_exprs(args, v),
        Expr::AnonNew { args, .. } => refs_var_exprs(args, v),
        Expr::NewMultiArray { dims, .. } => refs_var_exprs(dims, v),
        _ => false,
    }
}

/// `refs_var` where there is a value.
pub fn refs_var_opt(o: &Option<Box<Expr>>, v: u32) -> (r: bool)
    ensures
        r == refs_opt(opt_box(*o), v),
    decreases o,
{
    match o {
        Some(x) => refs_var(x, v),
        None => false,
    }
}

/// `refs_var` where there is a value.
pub fn refs_var_oexprs(o: &Option<Vec<Expr>>, v: u32) -> (r: bool)
    ensures
        r == refs_oexprs(opt_exprs(*o), v),
    decreases o,
{
    match o {
        Some(x) => refs_var_exprs(x, v),
        None => false,
    }
}

/// `refs_var` inside the captures of a lambda.
pub fn refs_var_captures(l: &LambdaExpr, v: u32) -> (r: bool)
    ensures
        r == refs_captures(l@, v),
    decreases l,
{
    refs_var_exprs(&l.captures, v)
}

/// `refs_var` over a list.
#[verifier::loop_isolation(false)]
pub fn refs_var_exprs(l: &Vec<Expr>, v: u32) -> (r: bool)
    ensures
        r == refs_exprs(exprs(l@), v),
    decreases l,
{
    let mut i: usize = 0;
    while i < l.len()
        invariant
            i <= l.len(),
            forall|j: int| 0 <= j < i ==> !(refs(#[trigger] exprs(l@)[j], v)),
        decreases l.len() - i,
    {
        assert(decreases_to!(l => l@[i as int]));
        assert(exprs(l@)[i as int] == l@[i as int]@);
        if refs_var(&l[i], v) {
            return true;
        }
        i += 1;
    }
    false
}

/// `refs_var` inside a concatenation piece.
pub fn refs_var_part(p: &ConcatPart, v: u32) -> (r: bool)
    ensures
        r == refs_part(p@, v),
    decreases p,
{
    match p {
        ConcatPart::Str(e) => refs_var(e, v),
        ConcatPart::Const(_) => false,
    }
}

/// `refs_var` over a list.
#[verifier::loop_isolation(false)]
pub fn refs_var_parts(l: &Vec<ConcatPart>, v: u32) -> (r: bool)
    ensures
        r == refs_parts(concat_parts(l@), v),
    decreases l,
{
    let mut i: usize = 0;
    while i < l.len()
        invariant
            i <= l.len(),
            forall|j: int| 0 <= j < i ==> !(refs_part(#[trigger] concat_parts(l@)[j], v)),
        decreases l.len() - i,
    {
        assert(decreases_to!(l => l@[i as int]));
        assert(concat_parts(l@)[i as int] == l@[i as int]@);
        if refs_var_part(&l[i], v) {
            return true;
        }
        i += 1;
    }
    false
}

/// A lambda in `e` captures `v`.
pub open spec fn in_lambda(e: ExprV, v: u32) -> bool
    decreases e,
{
    match e {
        ExprV::New { args, .. } => in_lambda_exprs(args, v),
        ExprV::NewArray { dims, init, .. } => in_lambda_exprs(dims, v) || in_lambda_oexprs(init, v),
        ExprV::Field { owner, .. } => in_lambda_opt(owner, v),
        ExprV::Method { owner, args, .. } => in_lambda_opt(owner, v) || in_lambda_exprs(args, v),
        ExprV::ArrayIndex { array, index } => in_lambda(*array, v) || in_lambda(*index, v),
        ExprV::Cast { e, .. } => in_lambda(*e, v),
        ExprV::InstanceOf { e, .. } => in_lambda(*e, v),
        ExprV::Un { e, .. } => in_lambda(*e, v),
        ExprV::Bin { l, r, .. } => in_lambda(*l, v) || in_lambda(*r, v),
        ExprV::Cond { c, t, f } => in_lambda(*c, v) || in_lambda(*t, v) || in_lambda(*f, v),
        ExprV::Assign { target, value, .. } => in_lambda(*target, v) || in_lambda(*value, v),
        ExprV::PreIncDec { e, .. } => in_lambda(*e, v),
        ExprV::PostIncDec { e, .. } => in_lambda(*e, v),
        ExprV::Lambda(l) => refs_captures(*l, v),
        ExprV::StringConcat(parts) => in_lambda_parts(parts, v),
        ExprV::Invokedynamic { args, .. } => in_lambda_exprs(args, v),
        ExprV::AnonNew { args, .. } => in_lambda_exprs(args, v),
        ExprV::NewMultiArray { dims, .. } => in_lambda_exprs(dims, v),
        _ => false,
    }
}

/// [`in_lambda`] where there is a value.
pub open spec fn in_lambda_opt(o: Option<Box<ExprV>>, v: u32) -> bool
    decreases o,
{
    match o {
        Some(x) => in_lambda(*x, v),
        None => false,
    }
}

/// [`in_lambda`] where there is a value.
pub open spec fn in_lambda_oexprs(o: Option<Seq<ExprV>>, v: u32) -> bool
    decreases o,
{
    match o {
        Some(x) => in_lambda_exprs(x, v),
        None => false,
    }
}

/// [`in_lambda`] over a list.
pub open spec fn in_lambda_exprs(l: Seq<ExprV>, v: u32) -> bool
    decreases l,
{
    exists|i: int| 0 <= i < l.len() && in_lambda(#[trigger] l[i], v)
}

/// [`in_lambda`] inside a concatenation piece.
pub open spec fn in_lambda_part(p: ConcatPartV, v: u32) -> bool
    decreases p,
{
    match p {
        ConcatPartV::Str(e) => in_lambda(e, v),
        ConcatPartV::Const(_) => false,
    }
}

/// [`in_lambda`] over a list.
pub open spec fn in_lambda_parts(l: Seq<ConcatPartV>, v: u32) -> bool
    decreases l,
{
    exists|i: int| 0 <= i < l.len() && in_lambda_part(#[trigger] l[i], v)
}

/// [`in_lambda`] where there is a value.
pub open spec fn in_lambda_oexpr(o: Option<ExprV>, v: u32) -> bool
    decreases o,
{
    match o {
        Some(x) => in_lambda(x, v),
        None => false,
    }
}

/// Whether a lambda in `e` captures `v`.
pub fn lambda_refs(e: &Expr, v: u32) -> (r: bool)
    ensures
        r == in_lambda(e@, v),
    decreases e,
{
    match e {
        Expr::New { args, .. } => lambda_refs_exprs(args, v),
        Expr::NewArray { dims, init, .. } => lambda_refs_exprs(dims, v)
            || lambda_refs_oexprs(init, v),
        Expr::Field { owner, .. } => lambda_refs_opt(owner, v),
        Expr::Method { owner, args, .. } => lambda_refs_opt(owner, v) || lambda_refs_exprs(args, v),
        Expr::ArrayIndex { array, index } => lambda_refs(array, v) || lambda_refs(index, v),
        Expr::Cast { e, .. } => lambda_refs(e, v),
        Expr::InstanceOf { e, .. } => lambda_refs(e, v),
        Expr::Un { e, .. } => lambda_refs(e, v),
        Expr::Bin { l, r, .. } => lambda_refs(l, v) || lambda_refs(r, v),
        Expr::Cond { c, t, f } => lambda_refs(c, v) || lambda_refs(t, v) || lambda_refs(f, v),
        Expr::Assign { target, value, .. } => lambda_refs(target, v) || lambda_refs(value, v),
        Expr::PreIncDec { e, .. } => lambda_refs(e, v),
        Expr::PostIncDec { e, .. } => lambda_refs(e, v),
        Expr::Lambda(l) => refs_var_captures(l, v),
        Expr::StringConcat(parts) => lambda_refs_parts(parts, v),
        Expr::Invokedynamic { args, .. } => lambda_refs_exprs(args, v),
        Expr::AnonNew { args, .. } => lambda_refs_exprs(args, v),
        Expr::NewMultiArray { dims, .. } => lambda_refs_exprs(dims, v),
        _ => false,
    }
}

/// `lambda_refs` where there is a value.
pub fn lambda_refs_opt(o: &Option<Box<Expr>>, v: u32) -> (r: bool)
    ensures
        r == in_lambda_opt(opt_box(*o), v),
    decreases o,
{
    match o {
        Some(x) => lambda_refs(x, v),
        None => false,
    }
}

/// `lambda_refs` where there is a value.
pub fn lambda_refs_oexprs(o: &Option<Vec<Expr>>, v: u32) -> (r: bool)
    ensures
        r == in_lambda_oexprs(opt_exprs(*o), v),
    decreases o,
{
    match o {
        Some(x) => lambda_refs_exprs(x, v),
        None => false,
    }
}

/// `lambda_refs` over a list.
#[verifier::loop_isolation(false)]
pub fn lambda_refs_exprs(l: &Vec<Expr>, v: u32) -> (r: bool)
    ensures
        r == in_lambda_exprs(exprs(l@), v),
    decreases l,
{
    let mut i: usize = 0;
    while i < l.len()
        invariant
            i <= l.len(),
            forall|j: int| 0 <= j < i ==> !(in_lambda(#[trigger] exprs(l@)[j], v)),
        decreases l.len() - i,
    {
        assert(decreases_to!(l => l@[i as int]));
        assert(exprs(l@)[i as int] == l@[i as int]@);
        if lambda_refs(&l[i], v) {
            return true;
        }
        i += 1;
    }
    false
}

/// `lambda_refs` inside a concatenation piece.
pub fn lambda_refs_part(p: &ConcatPart, v: u32) -> (r: bool)
    ensures
        r == in_lambda_part(p@, v),
    decreases p,
{
    match p {
        ConcatPart::Str(e) => lambda_refs(e, v),
        ConcatPart::Const(_) => false,
    }
}

/// `lambda_refs` over a list.
#[verifier::loop_isolation(false)]
pub fn lambda_refs_parts(l: &Vec<ConcatPart>, v: u32) -> (r: bool)
    ensures
        r == in_lambda_parts(concat_parts(l@), v),
    decreases l,
{
    let mut i: usize = 0;
    while i < l.len()
        invariant
            i <= l.len(),
            forall|j: int| 0 <= j < i ==> !(in_lambda_part(#[trigger] concat_parts(l@)[j], v)),
        decreases l.len() - i,
    {
        assert(decreases_to!(l => l@[i as int]));
        assert(concat_parts(l@)[i as int] == l@[i as int]@);
        if lambda_refs_part(&l[i], v) {
            return true;
        }
        i += 1;
    }
    false
}

/// `lambda_refs` where there is a value.
pub fn lambda_refs_oexpr(o: &Option<Expr>, v: u32) -> (r: bool)
    ensures
        r == in_lambda_oexpr(opt_expr(*o), v),
    decreases o,
{
    match o {
        Some(x) => lambda_refs(x, v),
        None => false,
    }
}

/// A lambda in `s` captures `v`.
pub open spec fn lambda_captures(s: StmtV, v: u32) -> bool
    decreases s,
{
    match s {
        StmtV::Block(items) => lambda_captures_seq(items, v),
        StmtV::ExprStmt(e) => in_lambda(e, v),
        StmtV::LocalDef { init, .. } => in_lambda_oexpr(init, v),
        StmtV::Return(e) => in_lambda_oexpr(e, v),
        StmtV::Throw(e) => in_lambda(e, v),
        StmtV::If { cond, then_stmt, else_stmt } => in_lambda(cond, v)
            || lambda_captures(*then_stmt, v) || lambda_captures_opt(else_stmt, v),
        StmtV::While { cond, body } => in_lambda(cond, v) || lambda_captures(*body, v),
        StmtV::DoWhile { body, cond } => lambda_captures(*body, v) || in_lambda(cond, v),
        StmtV::For { init, cond, update, body } => lambda_captures_seq(init, v)
            || in_lambda_oexpr(cond, v) || in_lambda_exprs(update, v) || lambda_captures(*body, v),
        StmtV::ForEach { iterable, body, .. } => in_lambda(iterable, v)
            || lambda_captures(*body, v),
        StmtV::Switch { selector, cases, default, .. } => in_lambda(selector, v)
            || lambda_captures_cases(cases, v) || lambda_captures_opt(default, v),
        StmtV::Try { body, catches, finally } => lambda_captures(*body, v)
            || lambda_captures_catches(catches, v) || lambda_captures_opt(finally, v),
        StmtV::TryWithResources { resources, body, catches, finally } => lambda_captures_seq(
            resources,
            v,
        )
            || lambda_captures(*body, v) || lambda_captures_catches(catches, v)
            || lambda_captures_opt(finally, v),
        StmtV::Assert { cond, msg } => in_lambda(cond, v) || in_lambda_oexpr(msg, v),
        StmtV::Synchronized { lock, body } => in_lambda(lock, v) || lambda_captures(*body, v),
        StmtV::Label(_) => false,
        StmtV::Goto(_) => false,
        StmtV::ClassDecl { .. } => false,
        StmtV::Labeled { body, .. } => lambda_captures(*body, v),
        StmtV::Break(_) => false,
        StmtV::Continue(_) => false,
        StmtV::Comment(_) => false,
        StmtV::TernaryValue { e } => in_lambda(e, v),
        StmtV::MonitorEnter(e) => in_lambda(e, v),
        StmtV::MonitorExit(e) => in_lambda(e, v),
        _ => false,
    }
}

/// [`lambda_captures`] where there is a value.
pub open spec fn lambda_captures_opt(o: Option<Box<StmtV>>, v: u32) -> bool
    decreases o,
{
    match o {
        Some(x) => lambda_captures(*x, v),
        None => false,
    }
}

/// [`lambda_captures`] over a list.
pub open spec fn lambda_captures_seq(l: Seq<StmtV>, v: u32) -> bool
    decreases l,
{
    exists|i: int| 0 <= i < l.len() && lambda_captures(#[trigger] l[i], v)
}

/// [`lambda_captures`] inside a switch arm.
pub open spec fn lambda_captures_case(c: CaseGroupV, v: u32) -> bool
    decreases c,
{
    in_lambda_oexpr(c.guard, v) || lambda_captures_seq(c.body, v)
}

/// [`lambda_captures`] over a list.
pub open spec fn lambda_captures_cases(l: Seq<CaseGroupV>, v: u32) -> bool
    decreases l,
{
    exists|i: int| 0 <= i < l.len() && lambda_captures_case(#[trigger] l[i], v)
}

/// [`lambda_captures`] inside a catch clause.
pub open spec fn lambda_captures_catch(c: CatchV, v: u32) -> bool
    decreases c,
{
    lambda_captures(*c.body, v)
}

/// [`lambda_captures`] over a list.
pub open spec fn lambda_captures_catches(l: Seq<CatchV>, v: u32) -> bool
    decreases l,
{
    exists|i: int| 0 <= i < l.len() && lambda_captures_catch(#[trigger] l[i], v)
}

/// Whether a lambda in `s` captures `v`.
pub fn captured_by_lambda(s: &Stmt, v: u32) -> (r: bool)
    ensures
        r == lambda_captures(s@, v),
    decreases s,
{
    match s {
        Stmt::Block(items) => captured_by_lambda_vec(items, v),
        Stmt::ExprStmt(e) => lambda_refs(e, v),
        Stmt::LocalDef { init, .. } => lambda_refs_oexpr(init, v),
        Stmt::Return(e) => lambda_refs_oexpr(e, v),
        Stmt::Throw(e) => lambda_refs(e, v),
        Stmt::If { cond, then_stmt, else_stmt } => lambda_refs(cond, v)
            || captured_by_lambda(then_stmt, v) || captured_by_lambda_opt(else_stmt, v),
        Stmt::While { cond, body } => lambda_refs(cond, v) || captured_by_lambda(body, v),
        Stmt::DoWhile { body, cond } => captured_by_lambda(body, v) || lambda_refs(cond, v),
        Stmt::For { init, cond, update, body } => captured_by_lambda_vec(init, v)
            || lambda_refs_oexpr(cond, v) || lambda_refs_exprs(update, v)
            || captured_by_lambda(body, v),
        Stmt::ForEach { iterable, body, .. } => lambda_refs(iterable, v)
            || captured_by_lambda(body, v),
        Stmt::Switch { selector, cases, default, .. } => lambda_refs(selector, v)
            || captured_by_lambda_cases(cases, v) || captured_by_lambda_opt(default, v),
        Stmt::Try { body, catches, finally } => captured_by_lambda(body, v)
            || captured_by_lambda_catches(catches, v) || captured_by_lambda_opt(finally, v),
        Stmt::TryWithResources { resources, body, catches, finally } => captured_by_lambda_vec(
            resources,
            v,
        )
            || captured_by_lambda(body, v) || captured_by_lambda_catches(catches, v)
            || captured_by_lambda_opt(finally, v),
        Stmt::Assert { cond, msg } => lambda_refs(cond, v) || lambda_refs_oexpr(msg, v),
        Stmt::Synchronized { lock, body } => lambda_refs(lock, v) || captured_by_lambda(body, v),
        Stmt::Label(_) => false,
        Stmt::Goto(_) => false,
        Stmt::ClassDecl { .. } => false,
        Stmt::Labeled { body, .. } => captured_by_lambda(body, v),
        Stmt::Break(_) => false,
        Stmt::Continue(_) => false,
        Stmt::Comment(_) => false,
        Stmt::TernaryValue { e } => lambda_refs(e, v),
        Stmt::MonitorEnter(e) => lambda_refs(e, v),
        Stmt::MonitorExit(e) => lambda_refs(e, v),
        _ => false,
    }
}

/// `captured_by_lambda` where there is a value.
pub fn captured_by_lambda_opt(o: &Option<Box<Stmt>>, v: u32) -> (r: bool)
    ensures
        r == lambda_captures_opt(opt_stmt(*o), v),
    decreases o,
{
    match o {
        Some(x) => captured_by_lambda(x, v),
        None => false,
    }
}

/// `captured_by_lambda` over a list.
#[verifier::loop_isolation(false)]
pub fn captured_by_lambda_vec(l: &Vec<Stmt>, v: u32) -> (r: bool)
    ensures
        r == lambda_captures_seq(stmts(l@), v),
    decreases l,
{
    let mut i: usize = 0;
    while i < l.len()
        invariant
            i <= l.len(),
            forall|j: int| 0 <= j < i ==> !(lambda_captures(#[trigger] stmts(l@)[j], v)),
        decreases l.len() - i,
    {
        assert(decreases_to!(l => l@[i as int]));
        assert(stmts(l@)[i as int] == l@[i as int]@);
        if captured_by_lambda(&l[i], v) {
            return true;
        }
        i += 1;
    }
    false
}

/// `captured_by_lambda` inside a switch arm.
pub fn captured_by_lambda_case(c: &CaseGroup, v: u32) -> (r: bool)
    ensures
        r == lambda_captures_case(c@, v),
    decreases c,
{
    lambda_refs_oexpr(&c.guard, v) || captured_by_lambda_vec(&c.body, v)
}

/// `captured_by_lambda` over a list.
#[verifier::loop_isolation(false)]
pub fn captured_by_lambda_cases(l: &Vec<CaseGroup>, v: u32) -> (r: bool)
    ensures
        r == lambda_captures_cases(case_groups(l@), v),
    decreases l,
{
    let mut i: usize = 0;
    while i < l.len()
        invariant
            i <= l.len(),
            forall|j: int| 0 <= j < i ==> !(lambda_captures_case(#[trigger] case_groups(l@)[j], v)),
        decreases l.len() - i,
    {
        assert(decreases_to!(l => l@[i as int]));
        assert(case_groups(l@)[i as int] == l@[i as int]@);
        if captured_by_lambda_case(&l[i], v) {
            return true;
        }
        i += 1;
    }
    false
}

/// `captured_by_lambda` inside a catch clause.
pub fn captured_by_lambda_catch(c: &Catch, v: u32) -> (r: bool)
    ensures
        r == lambda_captures_catch(c@, v),
    decreases c,
{
    captured_by_lambda(&c.body, v)
}

/// `captured_by_lambda` over a list.
#[verifier::loop_isolation(false)]
pub fn captured_by_lambda_catches(l: &Vec<Catch>, v: u32) -> (r: bool)
    ensures
        r == lambda_captures_catches(catch_list(l@), v),
    decreases l,
{
    let mut i: usize = 0;
    while i < l.len()
        invariant
            i <= l.len(),
            forall|j: int| 0 <= j < i ==> !(lambda_captures_catch(#[trigger] catch_list(l@)[j], v)),
        decreases l.len() - i,
    {
        assert(decreases_to!(l => l@[i as int]));
        assert(catch_list(l@)[i as int] == l@[i as int]@);
        if captured_by_lambda_catch(&l[i], v) {
            return true;
        }
        i += 1;
    }
    false
}

/// The characters after the last `$`; all of them where there is none.
pub open spec fn after_dollar(cls: Seq<char>) -> Seq<char>
    decreases cls.len(),
{
    if cls.len() == 0 || cls.last() == '$' {
        seq![]
    } else {
        after_dollar(cls.drop_last()).push(cls.last())
    }
}

/// A class without a source name: its last part is a number, or the name starts
/// with the mark of one.
pub open spec fn is_anon_class(cls: Seq<char>) -> bool {
    (cls.len() > 0 && cls[0] == '\u{2}') || (after_dollar(cls).len() > 0 && forall|i: int|
        0 <= i < after_dollar(cls).len() ==> is_decimal_digit(#[trigger] after_dollar(cls)[i]))
}

/// The characters after the last `$` are those from `k` on.
proof fn lemma_after_dollar(cls: Seq<char>, k: int)
    requires
        0 <= k <= cls.len(),
        k == 0 || cls[k - 1] == '$',
        forall|j: int| k <= j < cls.len() ==> cls[j] != '$',
    ensures
        after_dollar(cls) == cls.skip(k),
    decreases cls.len(),
{
    if k < cls.len() {
        lemma_after_dollar(cls.drop_last(), k);
        assert(cls.drop_last().skip(k).push(cls.last()) =~= cls.skip(k));
    } else {
        assert(cls.skip(k) =~= seq![]);
    }
}

/// Whether `cls` names a class without a source name.
pub fn is_anon_cls(cls: &str) -> (r: bool)
    ensures
        r == is_anon_class(cls@),
{
    let n = cls.unicode_len();
    if n > 0 && cls.get_char(0) == '\u{2}' {
        return true;
    }
    let mut k: usize = n;
    let mut digits = true;
    while k > 0 && cls.get_char(k - 1) != '$'
        invariant
            k <= n,
            n == cls@.len(),
            forall|j: int| k <= j < n ==> cls@[j] != '$',
            digits == forall|j: int| k <= j < n ==> is_decimal_digit(#[trigger] cls@[j]),
        decreases k,
    {
        k -= 1;
        if !decimal_digit(cls.get_char(k)) {
            digits = false;
        }
    }
    proof {
        lemma_after_dollar(cls@, k as int);
        let tail = cls@.skip(k as int);
        assert forall|j: int| k <= j < n implies #[trigger] cls@[j] == tail[j - k] by {}
        assert forall|i: int| 0 <= i < tail.len() implies #[trigger] tail[i] == cls@[i + k] by {}
    }
    k < n && digits
}

/// An anonymous class in `e` captures `v` as a constructor argument.
pub open spec fn in_anon(e: ExprV, v: u32) -> bool
    decreases e,
{
    match e {
        ExprV::New { cls, args, .. } => if is_anon_class(cls) {
            refs_exprs(args, v)
        } else {
            in_anon_exprs(args, v)
        },
        ExprV::NewArray { dims, init, .. } => in_anon_exprs(dims, v) || in_anon_oexprs(init, v),
        ExprV::Field { owner, .. } => in_anon_opt(owner, v),
        ExprV::Method { owner, args, .. } => in_anon_opt(owner, v) || in_anon_exprs(args, v),
        ExprV::ArrayIndex { array, index } => in_anon(*array, v) || in_anon(*index, v),
        ExprV::Cast { e, .. } => in_anon(*e, v),
        ExprV::InstanceOf { e, .. } => in_anon(*e, v),
        ExprV::Un { e, .. } => in_anon(*e, v),
        ExprV::Bin { l, r, .. } => in_anon(*l, v) || in_anon(*r, v),
        ExprV::Cond { c, t, f } => in_anon(*c, v) || in_anon(*t, v) || in_anon(*f, v),
        ExprV::Assign { target, value, .. } => in_anon(*target, v) || in_anon(*value, v),
        ExprV::PreIncDec { e, .. } => in_anon(*e, v),
        ExprV::PostIncDec { e, .. } => in_anon(*e, v),
        ExprV::StringConcat(parts) => in_anon_parts(parts, v),
        ExprV::AnonNew { args, .. } => refs_exprs(args, v),
        ExprV::NewMultiArray { dims, .. } => in_anon_exprs(dims, v),
        ExprV::Lambda(l) => in_anon_captures(*l, v),
        ExprV::Invokedynamic { args, .. } => in_anon_exprs(args, v),
        _ => false,
    }
}

/// [`in_anon`] inside the captures of a lambda.
pub open spec fn in_anon_captures(l: LambdaExprV, v: u32) -> bool
    decreases l,
{
    in_anon_exprs(l.captures, v)
}

/// [`in_anon`] where there is a value.
pub open spec fn in_anon_opt(o: Option<Box<ExprV>>, v: u32) -> bool
    decreases o,
{
    match o {
        Some(x) => in_anon(*x, v),
        None => false,
    }
}

/// [`in_anon`] where there is a value.
pub open spec fn in_anon_oexprs(o: Option<Seq<ExprV>>, v: u32) -> bool
    decreases o,
{
    match o {
        Some(x) => in_anon_exprs(x, v),
        None => false,
    }
}

/// [`in_anon`] over a list.
pub open spec fn in_anon_exprs(l: Seq<ExprV>, v: u32) -> bool
    decreases l,
{
    exists|i: int| 0 <= i < l.len() && in_anon(#[trigger] l[i], v)
}

/// [`in_anon`] inside a concatenation piece.
pub open spec fn in_anon_part(p: ConcatPartV, v: u32) -> bool
    decreases p,
{
    match p {
        ConcatPartV::Str(e) => in_anon(e, v),
        ConcatPartV::Const(_) => false,
    }
}

/// [`in_anon`] over a list.
pub open spec fn in_anon_parts(l: Seq<ConcatPartV>, v: u32) -> bool
    decreases l,
{
    exists|i: int| 0 <= i < l.len() && in_anon_part(#[trigger] l[i], v)
}

/// [`in_anon`] where there is a value.
pub open spec fn in_anon_oexpr(o: Option<ExprV>, v: u32) -> bool
    decreases o,
{
    match o {
        Some(x) => in_anon(x, v),
        None => false,
    }
}

/// Whether an anonymous class in `e` captures `v` as a constructor argument.
pub fn anon_refs(e: &Expr, v: u32) -> (r: bool)
    ensures
        r == in_anon(e@, v),
    decreases e,
{
    match e {
        Expr::New { cls, args, .. } => if is_anon_cls(cls.as_str()) {
            refs_var_exprs(args, v)
        } else {
            anon_refs_exprs(args, v)
        },
        Expr::NewArray { dims, init, .. } => anon_refs_exprs(dims, v) || anon_refs_oexprs(init, v),
        Expr::Field { owner, .. } => anon_refs_opt(owner, v),
        Expr::Method { owner, args, .. } => anon_refs_opt(owner, v) || anon_refs_exprs(args, v),
        Expr::ArrayIndex { array, index } => anon_refs(array, v) || anon_refs(index, v),
        Expr::Cast { e, .. } => anon_refs(e, v),
        Expr::InstanceOf { e, .. } => anon_refs(e, v),
        Expr::Un { e, .. } => anon_refs(e, v),
        Expr::Bin { l, r, .. } => anon_refs(l, v) || anon_refs(r, v),
        Expr::Cond { c, t, f } => anon_refs(c, v) || anon_refs(t, v) || anon_refs(f, v),
        Expr::Assign { target, value, .. } => anon_refs(target, v) || anon_refs(value, v),
        Expr::PreIncDec { e, .. } => anon_refs(e, v),
        Expr::PostIncDec { e, .. } => anon_refs(e, v),
        Expr::StringConcat(parts) => anon_refs_parts(parts, v),
        Expr::AnonNew { args, .. } => refs_var_exprs(args, v),
        Expr::NewMultiArray { dims, .. } => anon_refs_exprs(dims, v),
        Expr::Lambda(l) => anon_refs_captures(l, v),
        Expr::Invokedynamic { args, .. } => anon_refs_exprs(args, v),
        _ => false,
    }
}

/// `anon_refs` inside the captures of a lambda.
pub fn anon_refs_captures(l: &LambdaExpr, v: u32) -> (r: bool)
    ensures
        r == in_anon_captures(l@, v),
    decreases l,
{
    anon_refs_exprs(&l.captures, v)
}

/// `anon_refs` where there is a value.
pub fn anon_refs_opt(o: &Option<Box<Expr>>, v: u32) -> (r: bool)
    ensures
        r == in_anon_opt(opt_box(*o), v),
    decreases o,
{
    match o {
        Some(x) => anon_refs(x, v),
        None => false,
    }
}

/// `anon_refs` where there is a value.
pub fn anon_refs_oexprs(o: &Option<Vec<Expr>>, v: u32) -> (r: bool)
    ensures
        r == in_anon_oexprs(opt_exprs(*o), v),
    decreases o,
{
    match o {
        Some(x) => anon_refs_exprs(x, v),
        None => false,
    }
}

/// `anon_refs` over a list.
#[verifier::loop_isolation(false)]
pub fn anon_refs_exprs(l: &Vec<Expr>, v: u32) -> (r: bool)
    ensures
        r == in_anon_exprs(exprs(l@), v),
    decreases l,
{
    let mut i: usize = 0;
    while i < l.len()
        invariant
            i <= l.len(),
            forall|j: int| 0 <= j < i ==> !(in_anon(#[trigger] exprs(l@)[j], v)),
        decreases l.len() - i,
    {
        assert(decreases_to!(l => l@[i as int]));
        assert(exprs(l@)[i as int] == l@[i as int]@);
        if anon_refs(&l[i], v) {
            return true;
        }
        i += 1;
    }
    false
}

/// `anon_refs` inside a concatenation piece.
pub fn anon_refs_part(p: &ConcatPart, v: u32) -> (r: bool)
    ensures
        r == in_anon_part(p@, v),
    decreases p,
{
    match p {
        ConcatPart::Str(e) => anon_refs(e, v),
        ConcatPart::Const(_) => false,
    }
}

/// `anon_refs` over a list.
#[verifier::loop_isolation(false)]
pub fn anon_refs_parts(l: &Vec<ConcatPart>, v: u32) -> (r: bool)
    ensures
        r == in_anon_parts(concat_parts(l@), v),
    decreases l,
{
    let mut i: usize = 0;
    while i < l.len()
        invariant
            i <= l.len(),
            forall|j: int| 0 <= j < i ==> !(in_anon_part(#[trigger] concat_parts(l@)[j], v)),
        decreases l.len() - i,
    {
        assert(decreases_to!(l => l@[i as int]));
        assert(concat_parts(l@)[i as int] == l@[i as int]@);
        if anon_refs_part(&l[i], v) {
            return true;
        }
        i += 1;
    }
    false
}

/// `anon_refs` where there is a value.
pub fn anon_refs_oexpr(o: &Option<Expr>, v: u32) -> (r: bool)
    ensures
        r == in_anon_oexpr(opt_expr(*o), v),
    decreases o,
{
    match o {
        Some(x) => anon_refs(x, v),
        None => false,
    }
}

/// An anonymous class in `s` captures `v`.
pub open spec fn anon_captures(s: StmtV, v: u32) -> bool
    decreases s,
{
    match s {
        StmtV::Block(items) => anon_captures_seq(items, v),
        StmtV::ExprStmt(e) => in_anon(e, v),
        StmtV::LocalDef { init, .. } => in_anon_oexpr(init, v),
        StmtV::Return(e) => in_anon_oexpr(e, v),
        StmtV::Throw(e) => in_anon(e, v),
        StmtV::If { cond, then_stmt, else_stmt } => in_anon(cond, v)
            || anon_captures(*then_stmt, v) || anon_captures_opt(else_stmt, v),
        StmtV::While { cond, body } => in_anon(cond, v) || anon_captures(*body, v),
        StmtV::DoWhile { body, cond } => anon_captures(*body, v) || in_anon(cond, v),
        StmtV::For { init, cond, update, body } => anon_captures_seq(init, v)
            || in_anon_oexpr(cond, v) || in_anon_exprs(update, v) || anon_captures(*body, v),
        StmtV::ForEach { iterable, body, .. } => in_anon(iterable, v) || anon_captures(*body, v),
        StmtV::Switch { selector, cases, default, .. } => in_anon(selector, v)
            || anon_captures_cases(cases, v) || anon_captures_opt(default, v),
        StmtV::Try { body, catches, finally } => anon_captures(*body, v)
            || anon_captures_catches(catches, v) || anon_captures_opt(finally, v),
        StmtV::TryWithResources { resources, body, catches, finally } => anon_captures_seq(
            resources,
            v,
        )
            || anon_captures(*body, v) || anon_captures_catches(catches, v)
            || anon_captures_opt(finally, v),
        StmtV::Synchronized { lock, body } => in_anon(lock, v) || anon_captures(*body, v),
        StmtV::Label(_) => false,
        StmtV::Goto(_) => false,
        StmtV::ClassDecl { .. } => false,
        StmtV::Labeled { body, .. } => anon_captures(*body, v),
        StmtV::Break(_) => false,
        StmtV::Continue(_) => false,
        StmtV::Comment(_) => false,
        StmtV::Assert { cond, msg } => in_anon(cond, v) || in_anon_oexpr(msg, v),
        StmtV::TernaryValue { e } => in_anon(e, v),
        StmtV::MonitorEnter(e) => in_anon(e, v),
        StmtV::MonitorExit(e) => in_anon(e, v),
        _ => false,
    }
}

/// [`anon_captures`] where there is a value.
pub open spec fn anon_captures_opt(o: Option<Box<StmtV>>, v: u32) -> bool
    decreases o,
{
    match o {
        Some(x) => anon_captures(*x, v),
        None => false,
    }
}

/// [`anon_captures`] over a list.
pub open spec fn anon_captures_seq(l: Seq<StmtV>, v: u32) -> bool
    decreases l,
{
    exists|i: int| 0 <= i < l.len() && anon_captures(#[trigger] l[i], v)
}

/// [`anon_captures`] inside a switch arm.
pub open spec fn anon_captures_case(c: CaseGroupV, v: u32) -> bool
    decreases c,
{
    in_anon_oexpr(c.guard, v) || anon_captures_seq(c.body, v)
}

/// [`anon_captures`] over a list.
pub open spec fn anon_captures_cases(l: Seq<CaseGroupV>, v: u32) -> bool
    decreases l,
{
    exists|i: int| 0 <= i < l.len() && anon_captures_case(#[trigger] l[i], v)
}

/// [`anon_captures`] inside a catch clause.
pub open spec fn anon_captures_catch(c: CatchV, v: u32) -> bool
    decreases c,
{
    anon_captures(*c.body, v)
}

/// [`anon_captures`] over a list.
pub open spec fn anon_captures_catches(l: Seq<CatchV>, v: u32) -> bool
    decreases l,
{
    exists|i: int| 0 <= i < l.len() && anon_captures_catch(#[trigger] l[i], v)
}

/// Whether an anonymous class in `s` captures `v`.
pub fn captured_by_anon(s: &Stmt, v: u32) -> (r: bool)
    ensures
        r == anon_captures(s@, v),
    decreases s,
{
    match s {
        Stmt::Block(items) => captured_by_anon_vec(items, v),
        Stmt::ExprStmt(e) => anon_refs(e, v),
        Stmt::LocalDef { init, .. } => anon_refs_oexpr(init, v),
        Stmt::Return(e) => anon_refs_oexpr(e, v),
        Stmt::Throw(e) => anon_refs(e, v),
        Stmt::If { cond, then_stmt, else_stmt } => anon_refs(cond, v)
            || captured_by_anon(then_stmt, v) || captured_by_anon_opt(else_stmt, v),
        Stmt::While { cond, body } => anon_refs(cond, v) || captured_by_anon(body, v),
        Stmt::DoWhile { body, cond } => captured_by_anon(body, v) || anon_refs(cond, v),
        Stmt::For { init, cond, update, body } => captured_by_anon_vec(init, v)
            || anon_refs_oexpr(cond, v) || anon_refs_exprs(update, v) || captured_by_anon(body, v),
        Stmt::ForEach { iterable, body, .. } => anon_refs(iterable, v) || captured_by_anon(body, v),
        Stmt::Switch { selector, cases, default, .. } => anon_refs(selector, v)
            || captured_by_anon_cases(cases, v) || captured_by_anon_opt(default, v),
        Stmt::Try { body, catches, finally } => captured_by_anon(body, v)
            || captured_by_anon_catches(catches, v) || captured_by_anon_opt(finally, v),
        Stmt::TryWithResources { resources, body, catches, finally } => captured_by_anon_vec(
            resources,
            v,
        )
            || captured_by_anon(body, v) || captured_by_anon_catches(catches, v)
            || captured_by_anon_opt(finally, v),
        Stmt::Synchronized { lock, body } => anon_refs(lock, v) || captured_by_anon(body, v),
        Stmt::Label(_) => false,
        Stmt::Goto(_) => false,
        Stmt::ClassDecl { .. } => false,
        Stmt::Labeled { body, .. } => captured_by_anon(body, v),
        Stmt::Break(_) => false,
        Stmt::Continue(_) => false,
        Stmt::Comment(_) => false,
        Stmt::Assert { cond, msg } => anon_refs(cond, v) || anon_refs_oexpr(msg, v),
        Stmt::TernaryValue { e } => anon_refs(e, v),
        Stmt::MonitorEnter(e) => anon_refs(e, v),
        Stmt::MonitorExit(e) => anon_refs(e, v),
        _ => false,
    }
}

/// `captured_by_anon` where there is a value.
pub fn captured_by_anon_opt(o: &Option<Box<Stmt>>, v: u32) -> (r: bool)
    ensures
        r == anon_captures_opt(opt_stmt(*o), v),
    decreases o,
{
    match o {
        Some(x) => captured_by_anon(x, v),
        None => false,
    }
}

/// `captured_by_anon` over a list.
#[verifier::loop_isolation(false)]
pub fn captured_by_anon_vec(l: &Vec<Stmt>, v: u32) -> (r: bool)
    ensures
        r == anon_captures_seq(stmts(l@), v),
    decreases l,
{
    let mut i: usize = 0;
    while i < l.len()
        invariant
            i <= l.len(),
            forall|j: int| 0 <= j < i ==> !(anon_captures(#[trigger] stmts(l@)[j], v)),
        decreases l.len() - i,
    {
        assert(decreases_to!(l => l@[i as int]));
        assert(stmts(l@)[i as int] == l@[i as int]@);
        if captured_by_anon(&l[i], v) {
            return true;
        }
        i += 1;
    }
    false
}

/// `captured_by_anon` inside a switch arm.
pub fn captured_by_anon_case(c: &CaseGroup, v: u32) -> (r: bool)
    ensures
        r == anon_captures_case(c@, v),
    decreases c,
{
    anon_refs_oexpr(&c.guard, v) || captured_by_anon_vec(&c.body, v)
}

/// `captured_by_anon` over a list.
#[verifier::loop_isolation(false)]
pub fn captured_by_anon_cases(l: &Vec<CaseGroup>, v: u32) -> (r: bool)
    ensures
        r == anon_captures_cases(case_groups(l@), v),
    decreases l,
{
    let mut i: usize = 0;
    while i < l.len()
        invariant
            i <= l.len(),
            forall|j: int| 0 <= j < i ==> !(anon_captures_case(#[trigger] case_groups(l@)[j], v)),
        decreases l.len() - i,
    {
        assert(decreases_to!(l => l@[i as int]));
        assert(case_groups(l@)[i as int] == l@[i as int]@);
        if captured_by_anon_case(&l[i], v) {
            return true;
        }
        i += 1;
    }
    false
}

/// `captured_by_anon` inside a catch clause.
pub fn captured_by_anon_catch(c: &Catch, v: u32) -> (r: bool)
    ensures
        r == anon_captures_catch(c@, v),
    decreases c,
{
    captured_by_anon(&c.body, v)
}

/// `captured_by_anon` over a list.
#[verifier::loop_isolation(false)]
pub fn captured_by_anon_catches(l: &Vec<Catch>, v: u32) -> (r: bool)
    ensures
        r == anon_captures_catches(catch_list(l@), v),
    decreases l,
{
    let mut i: usize = 0;
    while i < l.len()
        invariant
            i <= l.len(),
            forall|j: int| 0 <= j < i ==> !(anon_captures_catch(#[trigger] catch_list(l@)[j], v)),
        decreases l.len() - i,
    {
        assert(decreases_to!(l => l@[i as int]));
        assert(catch_list(l@)[i as int] == l@[i as int]@);
        if captured_by_anon_catch(&l[i], v) {
            return true;
        }
        i += 1;
    }
    false
}

/// The constant `null`.
pub open spec fn is_null(e: ExprV) -> bool {
    e == ExprV::Const(ConstValV::Null)
}

/// Whether `e` is the constant `null`.
pub fn null_const(e: &Expr) -> (r: bool)
    ensures
        r == is_null(e@),
{
    match e {
        Expr::Const(c) => matches!(c, ConstVal::Null),
        _ => false,
    }
}

/// `e` assigns `null` to `v`.
pub open spec fn assigns_null(e: ExprV, v: u32) -> bool {
    e matches ExprV::Assign { target, value, .. } && as_local(*target) == Some(v) && is_null(*value)
}

/// Whether `e` assigns `null` to `v`.
fn null_assign(e: &Expr, v: u32) -> (r: bool)
    ensures
        r == assigns_null(e@, v),
{
    match e {
        Expr::Assign { target, value, .. } => is_local(target, v) && null_const(value),
        _ => false,
    }
}

/// Some statement of `s` gives `v` the value `null`.
pub open spec fn given_null(s: StmtV, v: u32) -> bool
    decreases s,
{
    match s {
        StmtV::Block(items) => given_null_seq(items, v),
        StmtV::ExprStmt(e) => assigns_null(e, v),
        StmtV::LocalDef { var, init, .. } => var == v && (init matches Some(e) && is_null(e)),
        StmtV::If { then_stmt, else_stmt, .. } => given_null(*then_stmt, v)
            || given_null_opt(else_stmt, v),
        StmtV::While { body, .. } => given_null(*body, v),
        StmtV::DoWhile { body, .. } => given_null(*body, v),
        StmtV::For { init, body, .. } => given_null_seq(init, v) || given_null(*body, v),
        StmtV::ForEach { body, .. } => given_null(*body, v),
        StmtV::Switch { cases, default, .. } => given_null_cases(cases, v)
            || given_null_opt(default, v),
        StmtV::Try { body, catches, finally } => given_null(*body, v)
            || given_null_catches(catches, v) || given_null_opt(finally, v),
        StmtV::TryWithResources { resources, body, catches, finally } => given_null_seq(
            resources,
            v,
        )
            || given_null(*body, v) || given_null_catches(catches, v) || given_null_opt(finally, v),
        StmtV::Synchronized { body, .. } => given_null(*body, v),
        StmtV::Labeled { body, .. } => given_null(*body, v),
        _ => false,
    }
}

/// [`given_null`] where there is a value.
pub open spec fn given_null_opt(o: Option<Box<StmtV>>, v: u32) -> bool
    decreases o,
{
    match o {
        Some(x) => given_null(*x, v),
        None => false,
    }
}

/// [`given_null`] over a list.
pub open spec fn given_null_seq(l: Seq<StmtV>, v: u32) -> bool
    decreases l,
{
    exists|i: int| 0 <= i < l.len() && given_null(#[trigger] l[i], v)
}

/// [`given_null`] inside a switch arm.
pub open spec fn given_null_case(c: CaseGroupV, v: u32) -> bool
    decreases c,
{
    given_null_seq(c.body, v)
}

/// [`given_null`] over a list.
pub open spec fn given_null_cases(l: Seq<CaseGroupV>, v: u32) -> bool
    decreases l,
{
    exists|i: int| 0 <= i < l.len() && given_null_case(#[trigger] l[i], v)
}

/// [`given_null`] inside a catch clause.
pub open spec fn given_null_catch(c: CatchV, v: u32) -> bool
    decreases c,
{
    given_null(*c.body, v)
}

/// [`given_null`] over a list.
pub open spec fn given_null_catches(l: Seq<CatchV>, v: u32) -> bool
    decreases l,
{
    exists|i: int| 0 <= i < l.len() && given_null_catch(#[trigger] l[i], v)
}

/// Whether some statement of `s` gives `v` the value `null`.
pub fn assigns_null_to(s: &Stmt, v: u32) -> (r: bool)
    ensures
        r == given_null(s@, v),
    decreases s,
{
    match s {
        Stmt::Block(items) => assigns_null_to_vec(items, v),
        Stmt::ExprStmt(e) => null_assign(e, v),
        Stmt::LocalDef { var, init, .. } => *var == v
            && match init { Some(e) => null_const(e), None => false },
        Stmt::If { then_stmt, else_stmt, .. } => assigns_null_to(then_stmt, v)
            || assigns_null_to_opt(else_stmt, v),
        Stmt::While { body, .. } => assigns_null_to(body, v),
        Stmt::DoWhile { body, .. } => assigns_null_to(body, v),
        Stmt::For { init, body, .. } => assigns_null_to_vec(init, v) || assigns_null_to(body, v),
        Stmt::ForEach { body, .. } => assigns_null_to(body, v),
        Stmt::Switch { cases, default, .. } => assigns_null_to_cases(cases, v)
            || assigns_null_to_opt(default, v),
        Stmt::Try { body, catches, finally } => assigns_null_to(body, v)
            || assigns_null_to_catches(catches, v) || assigns_null_to_opt(finally, v),
        Stmt::TryWithResources { resources, body, catches, finally } => assigns_null_to_vec(
            resources,
            v,
        )
            || assigns_null_to(body, v) || assigns_null_to_catches(catches, v)
            || assigns_null_to_opt(finally, v),
        Stmt::Synchronized { body, .. } => assigns_null_to(body, v),
        Stmt::Labeled { body, .. } => assigns_null_to(body, v),
        _ => false,
    }
}

/// `assigns_null_to` where there is a value.
pub fn assigns_null_to_opt(o: &Option<Box<Stmt>>, v: u32) -> (r: bool)
    ensures
        r == given_null_opt(opt_stmt(*o), v),
    decreases o,
{
    match o {
        Some(x) => assigns_null_to(x, v),
        None => false,
    }
}

/// `assigns_null_to` over a list.
#[verifier::loop_isolation(false)]
pub fn assigns_null_to_vec(l: &Vec<Stmt>, v: u32) -> (r: bool)
    ensures
        r == given_null_seq(stmts(l@), v),
    decreases l,
{
    let mut i: usize = 0;
    while i < l.len()
        invariant
            i <= l.len(),
            forall|j: int| 0 <= j < i ==> !(given_null(#[trigger] stmts(l@)[j], v)),
        decreases l.len() - i,
    {
        assert(decreases_to!(l => l@[i as int]));
        assert(stmts(l@)[i as int] == l@[i as int]@);
        if assigns_null_to(&l[i], v) {
            return true;
        }
        i += 1;
    }
    false
}

/// `assigns_null_to` inside a switch arm.
pub fn assigns_null_to_case(c: &CaseGroup, v: u32) -> (r: bool)
    ensures
        r == given_null_case(c@, v),
    decreases c,
{
    assigns_null_to_vec(&c.body, v)
}

/// `assigns_null_to` over a list.
#[verifier::loop_isolation(false)]
pub fn assigns_null_to_cases(l: &Vec<CaseGroup>, v: u32) -> (r: bool)
    ensures
        r == given_null_cases(case_groups(l@), v),
    decreases l,
{
    let mut i: usize = 0;
    while i < l.len()
        invariant
            i <= l.len(),
            forall|j: int| 0 <= j < i ==> !(given_null_case(#[trigger] case_groups(l@)[j], v)),
        decreases l.len() - i,
    {
        assert(decreases_to!(l => l@[i as int]));
        assert(case_groups(l@)[i as int] == l@[i as int]@);
        if assigns_null_to_case(&l[i], v) {
            return true;
        }
        i += 1;
    }
    false
}

/// `assigns_null_to` inside a catch clause.
pub fn assigns_null_to_catch(c: &Catch, v: u32) -> (r: bool)
    ensures
        r == given_null_catch(c@, v),
    decreases c,
{
    assigns_null_to(&c.body, v)
}

/// `assigns_null_to` over a list.
#[verifier::loop_isolation(false)]
pub fn assigns_null_to_catches(l: &Vec<Catch>, v: u32) -> (r: bool)
    ensures
        r == given_null_catches(catch_list(l@), v),
    decreases l,
{
    let mut i: usize = 0;
    while i < l.len()
        invariant
            i <= l.len(),
            forall|j: int| 0 <= j < i ==> !(given_null_catch(#[trigger] catch_list(l@)[j], v)),
        decreases l.len() - i,
    {
        assert(decreases_to!(l => l@[i as int]));
        assert(catch_list(l@)[i as int] == l@[i as int]@);
        if assigns_null_to_catch(&l[i], v) {
            return true;
        }
        i += 1;
    }
    false
}

/// The first store to `v` among leading plain statements and declarations is
/// `null`.
pub open spec fn null_first(items: Seq<StmtV>, v: u32) -> bool
    decreases items.len(),
{
    if items.len() == 0 {
        false
    } else {
        match items[0] {
            StmtV::ExprStmt(e) => if e matches ExprV::Assign { target, .. } && as_local(*target)
                == Some(v) {
                assigns_null(e, v)
            } else {
                null_first(items.skip(1), v)
            },
            StmtV::LocalDef { var, init, .. } => if var == v {
                init matches Some(e) && is_null(e)
            } else {
                null_first(items.skip(1), v)
            },
            StmtV::Comment(_) => null_first(items.skip(1), v),
            _ => false,
        }
    }
}

/// Whether the body gives `v` the value `null` before any control flow.
#[verifier::loop_isolation(false)]
pub fn straight_null_init(s: &Stmt, v: u32) -> (r: bool)
    ensures
        r == (s@ matches StmtV::Block(items) && null_first(items, v)),
{
    let items = match s {
        Stmt::Block(items) => items,
        _ => return false,
    };
    let ghost all = stmts(items@);
    assert(all.skip(0) =~= all);
    let mut i: usize = 0;
    while i < items.len()
        invariant
            i <= items.len(),
            null_first(all, v) == null_first(all.skip(i as int), v),
        decreases items.len() - i,
    {
        assert(all.skip(i as int)[0] == items@[i as int]@);
        assert(all.skip(i as int).skip(1) =~= all.skip(i + 1));
        match &items[i] {
            Stmt::ExprStmt(e) => {
                if let Expr::Assign { target, .. } = e {
                    if is_local(target, v) {
                        return null_assign(e, v);
                    }
                }
            },
            Stmt::LocalDef { var, init, .. } => {
                if *var == v {
                    return match init {
                        Some(e) => null_const(e),
                        None => false,
                    };
                }
            },
            Stmt::Comment(_) => {},
            _ => return false,
        }
        i += 1;
    }
    false
}

} // verus!
