//! Variables that stand for operand stack entries: their declarations, and those
//! that only ever hold `this`.
use crate::assigns::{
    assigns_in, assigns_in_exprs, assigns_in_oexpr, expr_assigns_var, expr_assigns_var_exprs,
    expr_assigns_var_oexpr,
};
use crate::cleanup::{drop_empty, nonempty};
use crate::ctor_guards::{calls_ctor, is_ctor_call};
use crate::expr::{
    as_local, concat_parts, exprs, local_var, opt_box, opt_expr, opt_exprs, ConcatPart, ConcatPartV,
    Expr, ExprV, LambdaExpr, LambdaExprV,
};
use crate::merged_news::{make_store, store};
use crate::order::{in_order, sorted_ids};
use crate::stmt::{
    case_groups, catch_list, empty_block, no_stmt, opt_stmt, stmts, take_stmt, CaseGroup,
    CaseGroupV, Catch, CatchV, Stmt, StmtV,
};
use crate::types::{JType, JTypeV, TypeRef, TypeRefV};
use std::collections::HashSet;
use vstd::prelude::*;

verus! {

broadcast use vstd::std_specs::hash::group_hash_axioms;

// ---------------------------------------------------------------------
// Declarations.

/// A declaration without initialiser.
pub open spec fn bare(v: u32) -> StmtV {
    StmtV::LocalDef { var: v, init: None, is_final: false, force_type: true }
}

/// A declaration without initialiser.
pub fn bare_def(v: u32) -> (r: Stmt)
    ensures
        r@ == bare(v),
{
    Stmt::LocalDef { var: v, init: None, is_final: false, force_type: true }
}

/// Declarations put first in a body, but after a leading constructor call.
pub open spec fn with_decls(body: StmtV, decls: Seq<StmtV>) -> StmtV {
    if decls.len() == 0 {
        body
    } else {
        match body {
            StmtV::Block(v) => if v.len() > 0 && is_ctor_call(v[0]) {
                StmtV::Block(seq![v[0]] + decls + v.skip(1))
            } else {
                StmtV::Block(decls + v)
            },
            _ => StmtV::Block(decls.push(body)),
        }
    }
}

/// Puts declarations first in a body, but after a leading constructor call.
pub fn prepend_decls(body: &mut Stmt, decls: Vec<Stmt>)
    ensures
        final(body)@ == with_decls(old(body)@, stmts(decls@)),
{
    let mut decls = decls;
    assert(stmts(decls@).len() == decls@.len());
    if decls.len() == 0 {
        return ;
    }
    let ghost ds = decls@;
    match take_stmt(body) {
        Stmt::Block(v) => {
            let mut v = v;
            let ghost all = v@;
            assert(stmts(all).len() == all.len());
            assert(all.len() > 0 ==> stmts(all)[0] == all[0]@);
            let mut out: Vec<Stmt> = Vec::new();
            if v.len() > 0 && calls_ctor(&v[0]) {
                out.push(v.remove(0));
                assert(v@ =~= all.skip(1));
                out.append(&mut decls);
                out.append(&mut v);
                assert(stmts(out@) =~= seq![stmts(all)[0]] + stmts(ds) + stmts(all).skip(1));
            } else {
                out.append(&mut decls);
                out.append(&mut v);
                assert(stmts(out@) =~= stmts(ds) + stmts(all));
            }
            *body = Stmt::Block(out);
        },
        other => {
            let ghost o = other@;
            decls.push(other);
            assert(stmts(decls@) =~= stmts(ds).push(o));
            *body = Stmt::Block(decls);
        },
    }
}

/// Bare declarations of `l`.
pub open spec fn bare_all(l: Seq<u32>) -> Seq<StmtV> {
    Seq::new(l.len(), |i: int| bare(l[i]))
}

/// Bare declarations of `l`.
fn bare_defs(l: &Vec<u32>) -> (r: Vec<Stmt>)
    ensures
        stmts(r@) == bare_all(l@),
{
    let mut r: Vec<Stmt> = Vec::new();
    let mut i: usize = 0;
    while i < l.len()
        invariant
            i <= l.len(),
            r.len() == i,
            forall|j: int| 0 <= j < i ==> (#[trigger] r@[j])@ == bare(l@[j]),
        decreases l.len() - i,
    {
        r.push(bare_def(l[i]));
        i += 1;
    }
    assert(stmts(r@) =~= bare_all(l@));
    r
}

/// `v` is a member of `vars` that occurs in `e`.
pub open spec fn refs_one_of(e: ExprV, vars: Set<u32>, v: u32) -> bool
    decreases e,
{
    match e {
        ExprV::Const(_) => false,
        ExprV::Local { var, .. } => vars.contains(var) && var == v,
        ExprV::This => false,
        ExprV::New { args, .. } => refs_one_of_exprs(args, vars, v),
        ExprV::NewArray { dims, init, .. } => refs_one_of_exprs(dims, vars, v)
            || refs_one_of_oexprs(init, vars, v),
        ExprV::NewMultiArray { dims, .. } => refs_one_of_exprs(dims, vars, v),
        ExprV::Field { owner, .. } => refs_one_of_opt(owner, vars, v),
        ExprV::Method { owner, args, .. } => refs_one_of_opt(owner, vars, v)
            || refs_one_of_exprs(args, vars, v),
        ExprV::ArrayIndex { array, index } => refs_one_of(*array, vars, v)
            || refs_one_of(*index, vars, v),
        ExprV::Cast { e, .. } => refs_one_of(*e, vars, v),
        ExprV::InstanceOf { e, .. } => refs_one_of(*e, vars, v),
        ExprV::Un { e, .. } => refs_one_of(*e, vars, v),
        ExprV::Bin { l, r, .. } => refs_one_of(*l, vars, v) || refs_one_of(*r, vars, v),
        ExprV::Cond { c, t, f } => refs_one_of(*c, vars, v) || refs_one_of(*t, vars, v)
            || refs_one_of(*f, vars, v),
        ExprV::Assign { target, value, .. } => refs_one_of(*target, vars, v)
            || refs_one_of(*value, vars, v),
        ExprV::PreIncDec { e, .. } => refs_one_of(*e, vars, v),
        ExprV::PostIncDec { e, .. } => refs_one_of(*e, vars, v),
        ExprV::Lambda(l) => refs_one_of_captures(*l, vars, v),
        ExprV::StringConcat(parts) => refs_one_of_parts(parts, vars, v),
        ExprV::Raw(_) => false,
        ExprV::RawT(_, _) => false,
        ExprV::Invokedynamic { args, .. } => refs_one_of_exprs(args, vars, v),
        ExprV::AnonNew { args, .. } => refs_one_of_exprs(args, vars, v),
    }
}

/// [`refs_one_of`] where there is a value.
pub open spec fn refs_one_of_opt(o: Option<Box<ExprV>>, vars: Set<u32>, v: u32) -> bool
    decreases o,
{
    match o {
        Some(x) => refs_one_of(*x, vars, v),
        None => false,
    }
}

/// [`refs_one_of`] where there is a value.
pub open spec fn refs_one_of_oexprs(o: Option<Seq<ExprV>>, vars: Set<u32>, v: u32) -> bool
    decreases o,
{
    match o {
        Some(x) => refs_one_of_exprs(x, vars, v),
        None => false,
    }
}

/// [`refs_one_of`] inside the captures of a lambda.
pub open spec fn refs_one_of_captures(l: LambdaExprV, vars: Set<u32>, v: u32) -> bool
    decreases l,
{
    refs_one_of_exprs(l.captures, vars, v)
}

/// [`refs_one_of`] over a list.
pub open spec fn refs_one_of_exprs(l: Seq<ExprV>, vars: Set<u32>, v: u32) -> bool
    decreases l,
{
    exists|i: int| 0 <= i < l.len() && refs_one_of(#[trigger] l[i], vars, v)
}

/// [`refs_one_of`] inside a concatenation piece.
pub open spec fn refs_one_of_part(p: ConcatPartV, vars: Set<u32>, v: u32) -> bool
    decreases p,
{
    match p {
        ConcatPartV::Str(e) => refs_one_of(e, vars, v),
        ConcatPartV::Const(_) => false,
    }
}

/// [`refs_one_of`] over a list.
pub open spec fn refs_one_of_parts(l: Seq<ConcatPartV>, vars: Set<u32>, v: u32) -> bool
    decreases l,
{
    exists|i: int| 0 <= i < l.len() && refs_one_of_part(#[trigger] l[i], vars, v)
}

/// [`refs_one_of`] where there is a value.
pub open spec fn refs_one_of_oexpr(o: Option<ExprV>, vars: Set<u32>, v: u32) -> bool
    decreases o,
{
    match o {
        Some(x) => refs_one_of(x, vars, v),
        None => false,
    }
}

/// Adds to `out` the members of `vars` that occur in `e`.
pub fn expr_refs_var_walk(e: &Expr, vars: &HashSet<u32>, out: &mut HashSet<u32>)
    ensures
        forall|v: u32|
            #[trigger] final(out)@.contains(v)
                <==> old(out)@.contains(v) || refs_one_of(e@, vars@, v),
    decreases e,
{
    match e {
        Expr::Const(_) => {  },
        Expr::Local { var, .. } => { if vars.contains(var) { out.insert(*var); } },
        Expr::This => {  },
        Expr::New { args, .. } => { expr_refs_var_walk_exprs(args, vars, out); },
        Expr::NewArray { dims, init, .. } => {
            expr_refs_var_walk_exprs(dims, vars, out);
            expr_refs_var_walk_oexprs(init, vars, out);
        },
        Expr::NewMultiArray { dims, .. } => { expr_refs_var_walk_exprs(dims, vars, out); },
        Expr::Field { owner, .. } => { expr_refs_var_walk_opt(owner, vars, out); },
        Expr::Method { owner, args, .. } => {
            expr_refs_var_walk_opt(owner, vars, out);
            expr_refs_var_walk_exprs(args, vars, out);
        },
        Expr::ArrayIndex { array, index } => {
            expr_refs_var_walk(array, vars, out);
            expr_refs_var_walk(index, vars, out);
        },
        Expr::Cast { e, .. } => { expr_refs_var_walk(e, vars, out); },
        Expr::InstanceOf { e, .. } => { expr_refs_var_walk(e, vars, out); },
        Expr::Un { e, .. } => { expr_refs_var_walk(e, vars, out); },
        Expr::Bin { l, r, .. } => {
            expr_refs_var_walk(l, vars, out);
            expr_refs_var_walk(r, vars, out);
        },
        Expr::Cond { c, t, f } => {
            expr_refs_var_walk(c, vars, out);
            expr_refs_var_walk(t, vars, out);
            expr_refs_var_walk(f, vars, out);
        },
        Expr::Assign { target, value, .. } => {
            expr_refs_var_walk(target, vars, out);
            expr_refs_var_walk(value, vars, out);
        },
        Expr::PreIncDec { e, .. } => { expr_refs_var_walk(e, vars, out); },
        Expr::PostIncDec { e, .. } => { expr_refs_var_walk(e, vars, out); },
        Expr::Lambda(l) => { expr_refs_var_walk_captures(l, vars, out); },
        Expr::StringConcat(parts) => { expr_refs_var_walk_parts(parts, vars, out); },
        Expr::Raw(_) => {  },
        Expr::RawT(_, _) => {  },
        Expr::Invokedynamic { args, .. } => { expr_refs_var_walk_exprs(args, vars, out); },
        Expr::AnonNew { args, .. } => { expr_refs_var_walk_exprs(args, vars, out); },
    }
}

/// `expr_refs_var_walk` where there is a value.
pub fn expr_refs_var_walk_opt(o: &Option<Box<Expr>>, vars: &HashSet<u32>, out: &mut HashSet<u32>)
    ensures
        forall|v: u32|
            #[trigger] final(out)@.contains(v)
                <==> old(out)@.contains(v) || refs_one_of_opt(opt_box(*o), vars@, v),
    decreases o,
{
    if let Some(x) = o {
        expr_refs_var_walk(x, vars, out);
    }
}

/// `expr_refs_var_walk` where there is a value.
pub fn expr_refs_var_walk_oexprs(o: &Option<Vec<Expr>>, vars: &HashSet<u32>, out: &mut HashSet<u32>)
    ensures
        forall|v: u32|
            #[trigger] final(out)@.contains(v)
                <==> old(out)@.contains(v) || refs_one_of_oexprs(opt_exprs(*o), vars@, v),
    decreases o,
{
    if let Some(x) = o {
        expr_refs_var_walk_exprs(x, vars, out);
    }
}

/// `expr_refs_var_walk` inside the captures of a lambda.
pub fn expr_refs_var_walk_captures(l: &LambdaExpr, vars: &HashSet<u32>, out: &mut HashSet<u32>)
    ensures
        forall|v: u32|
            #[trigger] final(out)@.contains(v)
                <==> old(out)@.contains(v) || refs_one_of_captures(l@, vars@, v),
    decreases l,
{
    expr_refs_var_walk_exprs(&l.captures, vars, out);
}

/// `expr_refs_var_walk` over a list.
#[verifier::loop_isolation(false)]
pub fn expr_refs_var_walk_exprs(l: &Vec<Expr>, vars: &HashSet<u32>, out: &mut HashSet<u32>)
    ensures
        forall|v: u32|
            #[trigger] final(out)@.contains(v)
                <==> old(out)@.contains(v) || refs_one_of_exprs(exprs(l@), vars@, v),
    decreases l,
{
    let mut i: usize = 0;
    while i < l.len()
        invariant
            i <= l.len(),
            forall|v: u32| #[trigger] out@.contains(v) <==> old(out)@.contains(v) || exists|j: int|
                0 <= j < i && refs_one_of(#[trigger] exprs(l@)[j], vars@, v),
        decreases l.len() - i,
    {
        assert(decreases_to!(l => l@[i as int]));
        assert(exprs(l@)[i as int] == l@[i as int]@);
        expr_refs_var_walk(&l[i], vars, out);
        i += 1;
    }
}

/// `expr_refs_var_walk` inside a concatenation piece.
pub fn expr_refs_var_walk_part(p: &ConcatPart, vars: &HashSet<u32>, out: &mut HashSet<u32>)
    ensures
        forall|v: u32|
            #[trigger] final(out)@.contains(v)
                <==> old(out)@.contains(v) || refs_one_of_part(p@, vars@, v),
    decreases p,
{
    match p {
        ConcatPart::Str(e) => expr_refs_var_walk(e, vars, out),
        ConcatPart::Const(_) => {},
    }
}

/// `expr_refs_var_walk` over a list.
#[verifier::loop_isolation(false)]
pub fn expr_refs_var_walk_parts(l: &Vec<ConcatPart>, vars: &HashSet<u32>, out: &mut HashSet<u32>)
    ensures
        forall|v: u32|
            #[trigger] final(out)@.contains(v)
                <==> old(out)@.contains(v) || refs_one_of_parts(concat_parts(l@), vars@, v),
    decreases l,
{
    let mut i: usize = 0;
    while i < l.len()
        invariant
            i <= l.len(),
            forall|v: u32| #[trigger] out@.contains(v) <==> old(out)@.contains(v) || exists|j: int|
                0 <= j < i && refs_one_of_part(#[trigger] concat_parts(l@)[j], vars@, v),
        decreases l.len() - i,
    {
        assert(decreases_to!(l => l@[i as int]));
        assert(concat_parts(l@)[i as int] == l@[i as int]@);
        expr_refs_var_walk_part(&l[i], vars, out);
        i += 1;
    }
}

/// `expr_refs_var_walk` where there is a value.
pub fn expr_refs_var_walk_oexpr(o: &Option<Expr>, vars: &HashSet<u32>, out: &mut HashSet<u32>)
    ensures
        forall|v: u32|
            #[trigger] final(out)@.contains(v)
                <==> old(out)@.contains(v) || refs_one_of_oexpr(opt_expr(*o), vars@, v),
    decreases o,
{
    if let Some(x) = o {
        expr_refs_var_walk(x, vars, out);
    }
}

/// The declaration of a stack variable with a value, as an assignment.
pub open spec fn def_converted(var: u32, init: Option<ExprV>, s: StmtV, vars: Set<u32>) -> StmtV {
    match init {
        Some(e) => if vars.contains(var) {
            store(var, TypeRefV::J(JTypeV::Int), e)
        } else {
            s
        },
        None => s,
    }
}

/// A resource declaration with a value stays a declaration.
pub open spec fn resource_converted(s: StmtV, vars: Set<u32>) -> StmtV
    decreases s, 1nat,
{
    if s is LocalDef && s->LocalDef_init is Some {
        s
    } else {
        defs_converted(s, vars)
    }
}

/// [`resource_converted`] over a list.
pub open spec fn resources_converted(v: Seq<StmtV>, vars: Set<u32>) -> Seq<StmtV>
    decreases v, 1nat,
{
    Seq::new(
        v.len(),
        |i: int|
            if 0 <= i < v.len() {
                resource_converted(v[i], vars)
            } else {
                arbitrary()
            },
    )
}

/// `s` where declarations of `vars` that have a value are assignments.
pub open spec fn defs_converted(s: StmtV, vars: Set<u32>) -> StmtV
    decreases s, 0nat,
{
    match s {
        StmtV::Block(items) => StmtV::Block(defs_converted_seq(items, vars)),
        StmtV::LocalDef { var, init, is_final, force_type } => def_converted(var, init, s, vars),
        StmtV::If { cond, then_stmt, else_stmt } => StmtV::If {
            cond,
            then_stmt: Box::new(defs_converted(*then_stmt, vars)),
            else_stmt: defs_converted_opt(else_stmt, vars),
        },
        StmtV::While { cond, body } => StmtV::While {
            cond,
            body: Box::new(defs_converted(*body, vars)),
        },
        StmtV::DoWhile { body, cond } => StmtV::DoWhile {
            body: Box::new(defs_converted(*body, vars)),
            cond,
        },
        StmtV::For { init, cond, update, body } => StmtV::For {
            init: defs_converted_seq(init, vars),
            cond,
            update,
            body: Box::new(defs_converted(*body, vars)),
        },
        StmtV::ForEach { var, iterable, is_array, body } => StmtV::ForEach {
            var,
            iterable,
            is_array,
            body: Box::new(defs_converted(*body, vars)),
        },
        StmtV::Switch { selector, cases, default, on_string } => StmtV::Switch {
            selector,
            cases: defs_converted_cases(cases, vars),
            default: defs_converted_opt(default, vars),
            on_string,
        },
        StmtV::Try { body, catches, finally } => StmtV::Try {
            body: Box::new(defs_converted(*body, vars)),
            catches: defs_converted_catches(catches, vars),
            finally: defs_converted_opt(finally, vars),
        },
        StmtV::TryWithResources { resources, body, catches, finally } => StmtV::TryWithResources {
            resources: resources_converted(resources, vars),
            body: Box::new(defs_converted(*body, vars)),
            catches: defs_converted_catches(catches, vars),
            finally: defs_converted_opt(finally, vars),
        },
        StmtV::Synchronized { lock, body } => StmtV::Synchronized {
            lock,
            body: Box::new(defs_converted(*body, vars)),
        },
        StmtV::Labeled { label, body } => StmtV::Labeled {
            label,
            body: Box::new(defs_converted(*body, vars)),
        },
        _ => s,
    }
}

/// [`defs_converted`] where there is a value.
pub open spec fn defs_converted_opt(o: Option<Box<StmtV>>, vars: Set<u32>) -> Option<Box<StmtV>>
    decreases o, 0nat,
{
    match o {
        Some(x) => Some(Box::new(defs_converted(*x, vars))),
        None => None,
    }
}

/// [`defs_converted`] over a list.
pub open spec fn defs_converted_seq(v: Seq<StmtV>, vars: Set<u32>) -> Seq<StmtV>
    decreases v, 0nat,
{
    Seq::new(
        v.len(),
        |i: int| if 0 <= i < v.len() { defs_converted(v[i], vars) } else { arbitrary() },
    )
}

/// [`defs_converted`] inside a switch arm.
pub open spec fn defs_converted_case(c: CaseGroupV, vars: Set<u32>) -> CaseGroupV
    decreases c, 0nat,
{
    CaseGroupV { body: defs_converted_seq(c.body, vars), ..c }
}

/// [`defs_converted`] over a list.
pub open spec fn defs_converted_cases(v: Seq<CaseGroupV>, vars: Set<u32>) -> Seq<CaseGroupV>
    decreases v, 0nat,
{
    Seq::new(
        v.len(),
        |i: int| if 0 <= i < v.len() { defs_converted_case(v[i], vars) } else { arbitrary() },
    )
}

/// [`defs_converted`] inside a catch clause.
pub open spec fn defs_converted_catch(c: CatchV, vars: Set<u32>) -> CatchV
    decreases c, 0nat,
{
    CatchV { body: Box::new(defs_converted(*c.body, vars)), ..c }
}

/// [`defs_converted`] over a list.
pub open spec fn defs_converted_catches(v: Seq<CatchV>, vars: Set<u32>) -> Seq<CatchV>
    decreases v, 0nat,
{
    Seq::new(
        v.len(),
        |i: int| if 0 <= i < v.len() { defs_converted_catch(v[i], vars) } else { arbitrary() },
    )
}

/// Turns the declarations of `vars` that have a value into assignments, except in
/// resource lists.
pub fn convert_defs(s: &mut Stmt, vars: &HashSet<u32>)
    ensures
        final(s)@ == defs_converted(old(s)@, vars@),
    decreases *old(s), 0nat,
{
    match s {
        Stmt::Block(items) => { convert_defs_vec(items, vars); },
        Stmt::LocalDef { var, .. } => { let var = *var; convert_def(s, var, vars); },
        Stmt::If { then_stmt, else_stmt, .. } => {
            convert_defs(then_stmt, vars);
            convert_defs_opt(else_stmt, vars);
        },
        Stmt::While { body, .. } => { convert_defs(body, vars); },
        Stmt::DoWhile { body, .. } => { convert_defs(body, vars); },
        Stmt::For { init, body, .. } => { convert_defs_vec(init, vars); convert_defs(body, vars); },
        Stmt::ForEach { body, .. } => { convert_defs(body, vars); },
        Stmt::Switch { cases, default, .. } => {
            convert_defs_cases(cases, vars);
            convert_defs_opt(default, vars);
        },
        Stmt::Try { body, catches, finally } => {
            convert_defs(body, vars);
            convert_defs_catches(catches, vars);
            convert_defs_opt(finally, vars);
        },
        Stmt::TryWithResources { resources, body, catches, finally } => {
            convert_resources(resources, vars);
            convert_defs(body, vars);
            convert_defs_catches(catches, vars);
            convert_defs_opt(finally, vars);
        },
        Stmt::Synchronized { body, .. } => { convert_defs(body, vars); },
        Stmt::Labeled { body, .. } => { convert_defs(body, vars); },
        _ => {},
    }
}

/// `convert_defs` where there is a value.
pub fn convert_defs_opt(o: &mut Option<Box<Stmt>>, vars: &HashSet<u32>)
    ensures
        opt_stmt(*final(o)) == defs_converted_opt(opt_stmt(*old(o)), vars@),
    decreases *old(o), 0nat,
{
    if let Some(x) = o {
        convert_defs(x, vars);
    }
}

/// `convert_defs` over a list.
#[verifier::loop_isolation(false)]
pub fn convert_defs_vec(v: &mut Vec<Stmt>, vars: &HashSet<u32>)
    ensures
        stmts(final(v)@) == defs_converted_seq(stmts(old(v)@), vars@),
    decreases *old(v), 0nat,
{
    let mut i: usize = 0;
    while i < v.len()
        invariant
            i <= v.len(),
            v.len() == old(v).len(),
            forall|j: int| 0 <= j < i ==> (#[trigger] v@[j])@ == defs_converted(old(v)@[j]@, vars@),
            forall|j: int| i <= j < v.len() ==> #[trigger] v@[j] == old(v)@[j],
        decreases v.len() - i,
    {
        assert(decreases_to!(*old(v) => v@[i as int]));
        convert_defs(&mut v[i], vars);
        i += 1;
    }
    assert(stmts(v@) =~= defs_converted_seq(stmts(old(v)@), vars@));
}

/// `convert_defs` inside a switch arm.
pub fn convert_defs_case(c: &mut CaseGroup, vars: &HashSet<u32>)
    ensures
        final(c)@ == defs_converted_case(old(c)@, vars@),
    decreases *old(c), 0nat,
{
    convert_defs_vec(&mut c.body, vars);
}

/// `convert_defs` over a list.
#[verifier::loop_isolation(false)]
pub fn convert_defs_cases(v: &mut Vec<CaseGroup>, vars: &HashSet<u32>)
    ensures
        case_groups(final(v)@) == defs_converted_cases(case_groups(old(v)@), vars@),
    decreases *old(v), 0nat,
{
    let mut i: usize = 0;
    while i < v.len()
        invariant
            i <= v.len(),
            v.len() == old(v).len(),
            forall|j: int|
                0 <= j < i ==> (#[trigger] v@[j])@ == defs_converted_case(old(v)@[j]@, vars@),
            forall|j: int| i <= j < v.len() ==> #[trigger] v@[j] == old(v)@[j],
        decreases v.len() - i,
    {
        assert(decreases_to!(*old(v) => v@[i as int]));
        convert_defs_case(&mut v[i], vars);
        i += 1;
    }
    assert(case_groups(v@) =~= defs_converted_cases(case_groups(old(v)@), vars@));
}

/// `convert_defs` inside a catch clause.
pub fn convert_defs_catch(c: &mut Catch, vars: &HashSet<u32>)
    ensures
        final(c)@ == defs_converted_catch(old(c)@, vars@),
    decreases *old(c), 0nat,
{
    convert_defs(&mut c.body, vars);
}

/// `convert_defs` over a list.
#[verifier::loop_isolation(false)]
pub fn convert_defs_catches(v: &mut Vec<Catch>, vars: &HashSet<u32>)
    ensures
        catch_list(final(v)@) == defs_converted_catches(catch_list(old(v)@), vars@),
    decreases *old(v), 0nat,
{
    let mut i: usize = 0;
    while i < v.len()
        invariant
            i <= v.len(),
            v.len() == old(v).len(),
            forall|j: int|
                0 <= j < i ==> (#[trigger] v@[j])@ == defs_converted_catch(old(v)@[j]@, vars@),
            forall|j: int| i <= j < v.len() ==> #[trigger] v@[j] == old(v)@[j],
        decreases v.len() - i,
    {
        assert(decreases_to!(*old(v) => v@[i as int]));
        convert_defs_catch(&mut v[i], vars);
        i += 1;
    }
    assert(catch_list(v@) =~= defs_converted_catches(catch_list(old(v)@), vars@));
}

/// `convert_resource` over a list.
#[verifier::loop_isolation(false)]
pub fn convert_resources(v: &mut Vec<Stmt>, vars: &HashSet<u32>)
    ensures
        stmts(final(v)@) == resources_converted(stmts(old(v)@), vars@),
    decreases *old(v), 1nat,
{
    let mut i: usize = 0;
    while i < v.len()
        invariant
            i <= v.len(),
            v.len() == old(v).len(),
            forall|j: int|
                0 <= j < i ==> (#[trigger] v@[j])@ == resource_converted(old(v)@[j]@, vars@),
            forall|j: int| i <= j < v.len() ==> #[trigger] v@[j] == old(v)@[j],
        decreases v.len() - i,
    {
        assert(decreases_to!(*old(v) => v@[i as int]));
        convert_resource(&mut v[i], vars);
        i += 1;
    }
    assert(stmts(v@) =~= resources_converted(stmts(old(v)@), vars@));
}

/// `convert_defs` on a resource; a declaration with a value stays.
fn convert_resource(s: &mut Stmt, vars: &HashSet<u32>)
    ensures
        final(s)@ == resource_converted(old(s)@, vars@),
    decreases *old(s), 1nat,
{
    let stays = match s {
        Stmt::LocalDef { init, .. } => init.is_some(),
        _ => false,
    };
    if !stays {
        convert_defs(s, vars);
    }
}

/// Turns the declaration of a stack variable with a value into an assignment.
fn convert_def(s: &mut Stmt, var: u32, vars: &HashSet<u32>)
    requires
        old(s)@ matches StmtV::LocalDef { var: v, .. } && v == var,
    ensures
        final(s)@ == defs_converted(old(s)@, vars@),
{
    if vars.contains(&var) {
        match take_stmt(s) {
            Stmt::LocalDef { init: Some(e), .. } => {
                *s = make_store(var, &TypeRef::J(JType::Int), e);
            },
            other => {
                *s = other;
            },
        }
    }
}

/// A resource counts by its value alone where it has one.
pub open spec fn resource_refs(s: StmtV, vars: Set<u32>, v: u32) -> bool
    decreases s, 1nat,
{
    match s {
        StmtV::LocalDef { init, .. } => match init {
            Some(e) => refs_one_of(e, vars, v),
            None => stmt_refs(s, vars, v),
        },
        _ => stmt_refs(s, vars, v),
    }
}

/// [`resource_refs`] over a list.
pub open spec fn resources_ref(l: Seq<StmtV>, vars: Set<u32>, v: u32) -> bool
    decreases l, 1nat,
{
    exists|i: int| 0 <= i < l.len() && resource_refs(#[trigger] l[i], vars, v)
}

/// `v` is a member of `vars` that occurs in `s`.
pub open spec fn stmt_refs(s: StmtV, vars: Set<u32>, v: u32) -> bool
    decreases s, 0nat,
{
    match s {
        StmtV::Block(items) => stmt_refs_seq(items, vars, v),
        StmtV::ExprStmt(e) => refs_one_of(e, vars, v),
        StmtV::LocalDef { var, init, .. } => (vars.contains(var) && var == v)
            || refs_one_of_oexpr(init, vars, v),
        StmtV::Return(e) => refs_one_of_oexpr(e, vars, v),
        StmtV::Throw(e) => refs_one_of(e, vars, v),
        StmtV::If { cond, then_stmt, else_stmt } => refs_one_of(cond, vars, v)
            || stmt_refs(*then_stmt, vars, v) || stmt_refs_opt(else_stmt, vars, v),
        StmtV::While { cond, body } => refs_one_of(cond, vars, v) || stmt_refs(*body, vars, v),
        StmtV::DoWhile { body, cond } => stmt_refs(*body, vars, v) || refs_one_of(cond, vars, v),
        StmtV::For { init, cond, update, body } => stmt_refs_seq(init, vars, v)
            || refs_one_of_oexpr(cond, vars, v) || refs_one_of_exprs(update, vars, v)
            || stmt_refs(*body, vars, v),
        StmtV::ForEach { var, iterable, body, .. } => (vars.contains(var) && var == v)
            || refs_one_of(iterable, vars, v) || stmt_refs(*body, vars, v),
        StmtV::Switch { selector, cases, default, .. } => refs_one_of(selector, vars, v)
            || stmt_refs_cases(cases, vars, v) || stmt_refs_opt(default, vars, v),
        StmtV::Try { body, catches, finally } => stmt_refs(*body, vars, v)
            || stmt_refs_catches(catches, vars, v) || stmt_refs_opt(finally, vars, v),
        StmtV::TryWithResources { resources, body, catches, finally } => resources_ref(
            resources,
            vars,
            v,
        )
            || stmt_refs(*body, vars, v) || stmt_refs_catches(catches, vars, v)
            || stmt_refs_opt(finally, vars, v),
        StmtV::Synchronized { lock, body } => refs_one_of(lock, vars, v)
            || stmt_refs(*body, vars, v),
        StmtV::MonitorEnter(e) => refs_one_of(e, vars, v),
        StmtV::MonitorExit(e) => refs_one_of(e, vars, v),
        StmtV::Label(_) => false,
        StmtV::Goto(_) => false,
        StmtV::ClassDecl { .. } => false,
        StmtV::Break(_) => false,
        StmtV::Continue(_) => false,
        StmtV::Comment(_) => false,
        StmtV::Labeled { body, .. } => stmt_refs(*body, vars, v),
        StmtV::Assert { cond, msg } => refs_one_of(cond, vars, v)
            || refs_one_of_oexpr(msg, vars, v),
        StmtV::TernaryValue { e } => refs_one_of(e, vars, v),
        _ => false,
    }
}

/// [`stmt_refs`] where there is a value.
pub open spec fn stmt_refs_opt(o: Option<Box<StmtV>>, vars: Set<u32>, v: u32) -> bool
    decreases o, 0nat,
{
    match o {
        Some(x) => stmt_refs(*x, vars, v),
        None => false,
    }
}

/// [`stmt_refs`] over a list.
pub open spec fn stmt_refs_seq(l: Seq<StmtV>, vars: Set<u32>, v: u32) -> bool
    decreases l, 0nat,
{
    exists|i: int| 0 <= i < l.len() && stmt_refs(#[trigger] l[i], vars, v)
}

/// [`stmt_refs`] inside a switch arm.
pub open spec fn stmt_refs_case(c: CaseGroupV, vars: Set<u32>, v: u32) -> bool
    decreases c, 0nat,
{
    refs_one_of_oexpr(c.guard, vars, v) || stmt_refs_seq(c.body, vars, v)
}

/// [`stmt_refs`] over a list.
pub open spec fn stmt_refs_cases(l: Seq<CaseGroupV>, vars: Set<u32>, v: u32) -> bool
    decreases l, 0nat,
{
    exists|i: int| 0 <= i < l.len() && stmt_refs_case(#[trigger] l[i], vars, v)
}

/// [`stmt_refs`] inside a catch clause.
pub open spec fn stmt_refs_catch(c: CatchV, vars: Set<u32>, v: u32) -> bool
    decreases c, 0nat,
{
    stmt_refs(*c.body, vars, v)
}

/// [`stmt_refs`] over a list.
pub open spec fn stmt_refs_catches(l: Seq<CatchV>, vars: Set<u32>, v: u32) -> bool
    decreases l, 0nat,
{
    exists|i: int| 0 <= i < l.len() && stmt_refs_catch(#[trigger] l[i], vars, v)
}

/// Adds to `out` the members of `vars` that occur in `s`.
pub fn collect_refs(s: &Stmt, vars: &HashSet<u32>, out: &mut HashSet<u32>)
    ensures
        forall|v: u32|
            #[trigger] final(out)@.contains(v)
                <==> old(out)@.contains(v) || stmt_refs(s@, vars@, v),
    decreases s, 0nat,
{
    match s {
        Stmt::Block(items) => { collect_refs_vec(items, vars, out); },
        Stmt::ExprStmt(e) => { expr_refs_var_walk(e, vars, out); },
        Stmt::LocalDef { var, init, .. } => {
            if vars.contains(var) { out.insert(*var); }
            expr_refs_var_walk_oexpr(init, vars, out);
        },
        Stmt::Return(e) => { expr_refs_var_walk_oexpr(e, vars, out); },
        Stmt::Throw(e) => { expr_refs_var_walk(e, vars, out); },
        Stmt::If { cond, then_stmt, else_stmt } => {
            expr_refs_var_walk(cond, vars, out);
            collect_refs(then_stmt, vars, out);
            collect_refs_opt(else_stmt, vars, out);
        },
        Stmt::While { cond, body } => {
            expr_refs_var_walk(cond, vars, out);
            collect_refs(body, vars, out);
        },
        Stmt::DoWhile { body, cond } => {
            collect_refs(body, vars, out);
            expr_refs_var_walk(cond, vars, out);
        },
        Stmt::For { init, cond, update, body } => {
            collect_refs_vec(init, vars, out);
            expr_refs_var_walk_oexpr(cond, vars, out);
            expr_refs_var_walk_exprs(update, vars, out);
            collect_refs(body, vars, out);
        },
        Stmt::ForEach { var, iterable, body, .. } => {
            if vars.contains(var) { out.insert(*var); }
            expr_refs_var_walk(iterable, vars, out);
            collect_refs(body, vars, out);
        },
        Stmt::Switch { selector, cases, default, .. } => {
            expr_refs_var_walk(selector, vars, out);
            collect_refs_cases(cases, vars, out);
            collect_refs_opt(default, vars, out);
        },
        Stmt::Try { body, catches, finally } => {
            collect_refs(body, vars, out);
            collect_refs_catches(catches, vars, out);
            collect_refs_opt(finally, vars, out);
        },
        Stmt::TryWithResources { resources, body, catches, finally } => {
            collect_resources(resources, vars, out);
            collect_refs(body, vars, out);
            collect_refs_catches(catches, vars, out);
            collect_refs_opt(finally, vars, out);
        },
        Stmt::Synchronized { lock, body } => {
            expr_refs_var_walk(lock, vars, out);
            collect_refs(body, vars, out);
        },
        Stmt::MonitorEnter(e) => { expr_refs_var_walk(e, vars, out); },
        Stmt::MonitorExit(e) => { expr_refs_var_walk(e, vars, out); },
        Stmt::Label(_) => {  },
        Stmt::Goto(_) => {  },
        Stmt::ClassDecl { .. } => {  },
        Stmt::Break(_) => {  },
        Stmt::Continue(_) => {  },
        Stmt::Comment(_) => {  },
        Stmt::Labeled { body, .. } => { collect_refs(body, vars, out); },
        Stmt::Assert { cond, msg } => {
            expr_refs_var_walk(cond, vars, out);
            expr_refs_var_walk_oexpr(msg, vars, out);
        },
        Stmt::TernaryValue { e } => { expr_refs_var_walk(e, vars, out); },
        _ => {},
    }
}

/// `collect_refs` where there is a value.
pub fn collect_refs_opt(o: &Option<Box<Stmt>>, vars: &HashSet<u32>, out: &mut HashSet<u32>)
    ensures
        forall|v: u32|
            #[trigger] final(out)@.contains(v)
                <==> old(out)@.contains(v) || stmt_refs_opt(opt_stmt(*o), vars@, v),
    decreases o, 0nat,
{
    if let Some(x) = o {
        collect_refs(x, vars, out);
    }
}

/// `collect_refs` over a list.
#[verifier::loop_isolation(false)]
pub fn collect_refs_vec(l: &Vec<Stmt>, vars: &HashSet<u32>, out: &mut HashSet<u32>)
    ensures
        forall|v: u32|
            #[trigger] final(out)@.contains(v)
                <==> old(out)@.contains(v) || stmt_refs_seq(stmts(l@), vars@, v),
    decreases l, 0nat,
{
    let mut i: usize = 0;
    while i < l.len()
        invariant
            i <= l.len(),
            forall|v: u32| #[trigger] out@.contains(v) <==> old(out)@.contains(v) || exists|j: int|
                0 <= j < i && stmt_refs(#[trigger] stmts(l@)[j], vars@, v),
        decreases l.len() - i,
    {
        assert(decreases_to!(l => l@[i as int]));
        assert(stmts(l@)[i as int] == l@[i as int]@);
        collect_refs(&l[i], vars, out);
        i += 1;
    }
}

/// `collect_refs` inside a switch arm.
pub fn collect_refs_case(c: &CaseGroup, vars: &HashSet<u32>, out: &mut HashSet<u32>)
    ensures
        forall|v: u32|
            #[trigger] final(out)@.contains(v)
                <==> old(out)@.contains(v) || stmt_refs_case(c@, vars@, v),
    decreases c, 0nat,
{
    expr_refs_var_walk_oexpr(&c.guard, vars, out);
    collect_refs_vec(&c.body, vars, out);
}

/// `collect_refs` over a list.
#[verifier::loop_isolation(false)]
pub fn collect_refs_cases(l: &Vec<CaseGroup>, vars: &HashSet<u32>, out: &mut HashSet<u32>)
    ensures
        forall|v: u32|
            #[trigger] final(out)@.contains(v)
                <==> old(out)@.contains(v) || stmt_refs_cases(case_groups(l@), vars@, v),
    decreases l, 0nat,
{
    let mut i: usize = 0;
    while i < l.len()
        invariant
            i <= l.len(),
            forall|v: u32| #[trigger] out@.contains(v) <==> old(out)@.contains(v) || exists|j: int|
                0 <= j < i && stmt_refs_case(#[trigger] case_groups(l@)[j], vars@, v),
        decreases l.len() - i,
    {
        assert(decreases_to!(l => l@[i as int]));
        assert(case_groups(l@)[i as int] == l@[i as int]@);
        collect_refs_case(&l[i], vars, out);
        i += 1;
    }
}

/// `collect_refs` inside a catch clause.
pub fn collect_refs_catch(c: &Catch, vars: &HashSet<u32>, out: &mut HashSet<u32>)
    ensures
        forall|v: u32|
            #[trigger] final(out)@.contains(v)
                <==> old(out)@.contains(v) || stmt_refs_catch(c@, vars@, v),
    decreases c, 0nat,
{
    collect_refs(&c.body, vars, out);
}

/// `collect_refs` over a list.
#[verifier::loop_isolation(false)]
pub fn collect_refs_catches(l: &Vec<Catch>, vars: &HashSet<u32>, out: &mut HashSet<u32>)
    ensures
        forall|v: u32|
            #[trigger] final(out)@.contains(v)
                <==> old(out)@.contains(v) || stmt_refs_catches(catch_list(l@), vars@, v),
    decreases l, 0nat,
{
    let mut i: usize = 0;
    while i < l.len()
        invariant
            i <= l.len(),
            forall|v: u32| #[trigger] out@.contains(v) <==> old(out)@.contains(v) || exists|j: int|
                0 <= j < i && stmt_refs_catch(#[trigger] catch_list(l@)[j], vars@, v),
        decreases l.len() - i,
    {
        assert(decreases_to!(l => l@[i as int]));
        assert(catch_list(l@)[i as int] == l@[i as int]@);
        collect_refs_catch(&l[i], vars, out);
        i += 1;
    }
}

/// `collect_resource` over a list.
#[verifier::loop_isolation(false)]
pub fn collect_resources(l: &Vec<Stmt>, vars: &HashSet<u32>, out: &mut HashSet<u32>)
    ensures
        forall|v: u32|
            #[trigger] final(out)@.contains(v)
                <==> old(out)@.contains(v) || resources_ref(stmts(l@), vars@, v),
    decreases l, 1nat,
{
    let mut i: usize = 0;
    while i < l.len()
        invariant
            i <= l.len(),
            forall|v: u32| #[trigger] out@.contains(v) <==> old(out)@.contains(v) || exists|j: int|
                0 <= j < i && resource_refs(#[trigger] stmts(l@)[j], vars@, v),
        decreases l.len() - i,
    {
        assert(decreases_to!(l => l@[i as int]));
        assert(stmts(l@)[i as int] == l@[i as int]@);
        collect_resource(&l[i], vars, out);
        i += 1;
    }
}

/// `collect_refs` on a resource.
fn collect_resource(s: &Stmt, vars: &HashSet<u32>, out: &mut HashSet<u32>)
    ensures
        forall|v: u32| #[trigger]
            final(out)@.contains(v) <==> old(out)@.contains(v) || resource_refs(s@, vars@, v),
    decreases s, 1nat,
{
    match s {
        Stmt::LocalDef { init: Some(e), .. } => expr_refs_var_walk(e, vars, out),
        _ => collect_refs(s, vars, out),
    }
}

/// Turns declarations of `vars` into assignments and adds to `used` those that
/// occur afterwards.
pub fn convert_defs_and_collect(s: &mut Stmt, vars: &HashSet<u32>, used: &mut HashSet<u32>)
    ensures
        final(s)@ == defs_converted(old(s)@, vars@),
        forall|v: u32| #[trigger]
            final(used)@.contains(v) <==> old(used)@.contains(v) || stmt_refs(
                defs_converted(old(s)@, vars@),
                vars@,
                v,
            ),
{
    convert_defs(s, vars);
    collect_refs(s, vars, used);
}

/// `v` is declared in a resource list of `l`.
pub open spec fn resource_decl(l: Seq<StmtV>, v: u32) -> bool {
    exists|i: int| 0 <= i < l.len() && #[trigger] l[i] is LocalDef && l[i]->LocalDef_var == v
}

/// Adds the variables that a resource list declares to `out`.
fn collect_resource_decls(l: &Vec<Stmt>, out: &mut HashSet<u32>)
    ensures
        forall|v: u32| #[trigger]
            final(out)@.contains(v) <==> old(out)@.contains(v) || resource_decl(stmts(l@), v),
{
    let mut i: usize = 0;
    while i < l.len()
        invariant
            i <= l.len(),
            forall|v: u32| #[trigger]
                out@.contains(v) <==> old(out)@.contains(v) || exists|j: int|
                    0 <= j < i && #[trigger] stmts(l@)[j] is LocalDef && stmts(l@)[j]->LocalDef_var
                        == v,
        decreases l.len() - i,
    {
        assert(stmts(l@)[i as int] == l@[i as int]@);
        if let Stmt::LocalDef { var, .. } = &l[i] {
            out.insert(*var);
        }
        i += 1;
    }
}

/// A resource list in `s` declares `v`.
pub open spec fn resource_var(s: StmtV, v: u32) -> bool
    decreases s,
{
    match s {
        StmtV::Block(items) => resource_var_seq(items, v),
        StmtV::If { then_stmt, else_stmt, .. } => resource_var(*then_stmt, v)
            || resource_var_opt(else_stmt, v),
        StmtV::While { body, .. } => resource_var(*body, v),
        StmtV::DoWhile { body, .. } => resource_var(*body, v),
        StmtV::For { init, body, .. } => resource_var_seq(init, v) || resource_var(*body, v),
        StmtV::ForEach { body, .. } => resource_var(*body, v),
        StmtV::Switch { cases, default, .. } => resource_var_cases(cases, v)
            || resource_var_opt(default, v),
        StmtV::Try { body, catches, finally } => resource_var(*body, v)
            || resource_var_catches(catches, v) || resource_var_opt(finally, v),
        StmtV::TryWithResources { resources, body, catches, finally } => resource_decl(resources, v)
            || resource_var(*body, v) || resource_var_catches(catches, v)
            || resource_var_opt(finally, v),
        StmtV::Synchronized { body, .. } => resource_var(*body, v),
        StmtV::Labeled { body, .. } => resource_var(*body, v),
        _ => false,
    }
}

/// [`resource_var`] where there is a value.
pub open spec fn resource_var_opt(o: Option<Box<StmtV>>, v: u32) -> bool
    decreases o,
{
    match o {
        Some(x) => resource_var(*x, v),
        None => false,
    }
}

/// [`resource_var`] over a list.
pub open spec fn resource_var_seq(l: Seq<StmtV>, v: u32) -> bool
    decreases l,
{
    exists|i: int| 0 <= i < l.len() && resource_var(#[trigger] l[i], v)
}

/// [`resource_var`] inside a switch arm.
pub open spec fn resource_var_case(c: CaseGroupV, v: u32) -> bool
    decreases c,
{
    resource_var_seq(c.body, v)
}

/// [`resource_var`] over a list.
pub open spec fn resource_var_cases(l: Seq<CaseGroupV>, v: u32) -> bool
    decreases l,
{
    exists|i: int| 0 <= i < l.len() && resource_var_case(#[trigger] l[i], v)
}

/// [`resource_var`] inside a catch clause.
pub open spec fn resource_var_catch(c: CatchV, v: u32) -> bool
    decreases c,
{
    resource_var(*c.body, v)
}

/// [`resource_var`] over a list.
pub open spec fn resource_var_catches(l: Seq<CatchV>, v: u32) -> bool
    decreases l,
{
    exists|i: int| 0 <= i < l.len() && resource_var_catch(#[trigger] l[i], v)
}

/// Adds to `out` the variables that resource lists in `s` declare.
pub fn collect_res_vars(s: &Stmt, out: &mut HashSet<u32>)
    ensures
        forall|v: u32|
            #[trigger] final(out)@.contains(v) <==> old(out)@.contains(v) || resource_var(s@, v),
    decreases s,
{
    match s {
        Stmt::Block(items) => { collect_res_vars_vec(items, out); },
        Stmt::If { then_stmt, else_stmt, .. } => {
            collect_res_vars(then_stmt, out);
            collect_res_vars_opt(else_stmt, out);
        },
        Stmt::While { body, .. } => { collect_res_vars(body, out); },
        Stmt::DoWhile { body, .. } => { collect_res_vars(body, out); },
        Stmt::For { init, body, .. } => {
            collect_res_vars_vec(init, out);
            collect_res_vars(body, out);
        },
        Stmt::ForEach { body, .. } => { collect_res_vars(body, out); },
        Stmt::Switch { cases, default, .. } => {
            collect_res_vars_cases(cases, out);
            collect_res_vars_opt(default, out);
        },
        Stmt::Try { body, catches, finally } => {
            collect_res_vars(body, out);
            collect_res_vars_catches(catches, out);
            collect_res_vars_opt(finally, out);
        },
        Stmt::TryWithResources { resources, body, catches, finally } => {
            collect_resource_decls(resources, out);
            collect_res_vars(body, out);
            collect_res_vars_catches(catches, out);
            collect_res_vars_opt(finally, out);
        },
        Stmt::Synchronized { body, .. } => { collect_res_vars(body, out); },
        Stmt::Labeled { body, .. } => { collect_res_vars(body, out); },
        _ => {},
    }
}

/// `collect_res_vars` where there is a value.
pub fn collect_res_vars_opt(o: &Option<Box<Stmt>>, out: &mut HashSet<u32>)
    ensures
        forall|v: u32|
            #[trigger] final(out)@.contains(v)
                <==> old(out)@.contains(v) || resource_var_opt(opt_stmt(*o), v),
    decreases o,
{
    if let Some(x) = o {
        collect_res_vars(x, out);
    }
}

/// `collect_res_vars` over a list.
#[verifier::loop_isolation(false)]
pub fn collect_res_vars_vec(l: &Vec<Stmt>, out: &mut HashSet<u32>)
    ensures
        forall|v: u32|
            #[trigger] final(out)@.contains(v)
                <==> old(out)@.contains(v) || resource_var_seq(stmts(l@), v),
    decreases l,
{
    let mut i: usize = 0;
    while i < l.len()
        invariant
            i <= l.len(),
            forall|v: u32| #[trigger] out@.contains(v) <==> old(out)@.contains(v) || exists|j: int|
                0 <= j < i && resource_var(#[trigger] stmts(l@)[j], v),
        decreases l.len() - i,
    {
        assert(decreases_to!(l => l@[i as int]));
        assert(stmts(l@)[i as int] == l@[i as int]@);
        collect_res_vars(&l[i], out);
        i += 1;
    }
}

/// `collect_res_vars` inside a switch arm.
pub fn collect_res_vars_case(c: &CaseGroup, out: &mut HashSet<u32>)
    ensures
        forall|v: u32|
            #[trigger] final(out)@.contains(v)
                <==> old(out)@.contains(v) || resource_var_case(c@, v),
    decreases c,
{
    collect_res_vars_vec(&c.body, out);
}

/// `collect_res_vars` over a list.
#[verifier::loop_isolation(false)]
pub fn collect_res_vars_cases(l: &Vec<CaseGroup>, out: &mut HashSet<u32>)
    ensures
        forall|v: u32|
            #[trigger] final(out)@.contains(v)
                <==> old(out)@.contains(v) || resource_var_cases(case_groups(l@), v),
    decreases l,
{
    let mut i: usize = 0;
    while i < l.len()
        invariant
            i <= l.len(),
            forall|v: u32| #[trigger] out@.contains(v) <==> old(out)@.contains(v) || exists|j: int|
                0 <= j < i && resource_var_case(#[trigger] case_groups(l@)[j], v),
        decreases l.len() - i,
    {
        assert(decreases_to!(l => l@[i as int]));
        assert(case_groups(l@)[i as int] == l@[i as int]@);
        collect_res_vars_case(&l[i], out);
        i += 1;
    }
}

/// `collect_res_vars` inside a catch clause.
pub fn collect_res_vars_catch(c: &Catch, out: &mut HashSet<u32>)
    ensures
        forall|v: u32|
            #[trigger] final(out)@.contains(v)
                <==> old(out)@.contains(v) || resource_var_catch(c@, v),
    decreases c,
{
    collect_res_vars(&c.body, out);
}

/// `collect_res_vars` over a list.
#[verifier::loop_isolation(false)]
pub fn collect_res_vars_catches(l: &Vec<Catch>, out: &mut HashSet<u32>)
    ensures
        forall|v: u32|
            #[trigger] final(out)@.contains(v)
                <==> old(out)@.contains(v) || resource_var_catches(catch_list(l@), v),
    decreases l,
{
    let mut i: usize = 0;
    while i < l.len()
        invariant
            i <= l.len(),
            forall|v: u32| #[trigger] out@.contains(v) <==> old(out)@.contains(v) || exists|j: int|
                0 <= j < i && resource_var_catch(#[trigger] catch_list(l@)[j], v),
        decreases l.len() - i,
    {
        assert(decreases_to!(l => l@[i as int]));
        assert(catch_list(l@)[i as int] == l@[i as int]@);
        collect_res_vars_catch(&l[i], out);
        i += 1;
    }
}

/// The stack variables that need a declaration: those that occur after
/// conversion and that no resource list declares.
pub open spec fn undeclared(s: StmtV, vars: Set<u32>) -> Set<u32> {
    Set::new(|v: u32| stmt_refs(s, vars, v) && !resource_var(s, v))
}

/// Declares the stack variables `vars` once, at the top of the body.
pub fn hoist_stack_vars(body: &mut Stmt, vars: &Vec<u32>)
    ensures
        final(body)@ == if vars@.len() == 0 {
            old(body)@
        } else {
            let converted = defs_converted(old(body)@, vars@.to_set());
            with_decls(converted, bare_all(in_order(undeclared(converted, vars@.to_set()))))
        },
{
    if vars.len() == 0 {
        return ;
    }
    let varset = to_hash_set(vars);
    let mut used: HashSet<u32> = HashSet::new();
    convert_defs_and_collect(body, &varset, &mut used);
    let mut res_vars: HashSet<u32> = HashSet::new();
    collect_res_vars(body, &mut res_vars);
    let mut open: HashSet<u32> = HashSet::new();
    let l = sorted_ids(&used);
    let mut i: usize = 0;
    while i < l.len()
        invariant
            i <= l.len(),
            forall|v: u32| #[trigger]
                open@.contains(v) <==> l@.take(i as int).contains(v) && !res_vars@.contains(v),
        decreases l.len() - i,
    {
        assert(l@.take(i + 1) =~= l@.take(i as int).push(l@[i as int]));
        assert forall|v: u32|
            #[trigger] l@.take(i + 1).contains(v) <==> l@.take(i as int).contains(v)
            || v == l@[i as int] by {
            if l@.take(i as int).contains(v) {
                let k = choose|k: int| 0 <= k < i && l@.take(i as int)[k] == v;
                assert(l@.take(i + 1)[k] == v);
            }
            assert(l@.take(i + 1)[i as int] == l@[i as int]);
        }
        if !res_vars.contains(&l[i]) {
            open.insert(l[i]);
        }
        i += 1;
    }
    assert(l@.take(i as int) =~= l@);
    assert(open@ =~= undeclared(body@, vars@.to_set()));
    let ids = sorted_ids(&open);
    prepend_decls(body, bare_defs(&ids));
}

/// The members of a list as a set.
pub fn to_hash_set(l: &Vec<u32>) -> (r: HashSet<u32>)
    ensures
        r@ == l@.to_set(),
{
    let mut r: HashSet<u32> = HashSet::new();
    let mut i: usize = 0;
    while i < l.len()
        invariant
            i <= l.len(),
            forall|v: u32| #[trigger]
                r@.contains(v) <==> exists|j: int| 0 <= j < i && #[trigger] l@[j] == v,
        decreases l.len() - i,
    {
        r.insert(l[i]);
        i += 1;
    }
    assert(r@ =~= l@.to_set());
    r
}

// ---------------------------------------------------------------------
// Variables that only hold `this`.

/// `s` is a definition of `v` with a value; with `other`, one that is not `this`.
pub open spec fn defines(var: Option<u32>, value: ExprV, other: bool, v: u32) -> bool {
    var == Some(v) && !(other && value is This)
}

/// An assignment `e` gives `v` a value; with `other`, one that is not `this`.
pub open spec fn assign_defines(e: ExprV, other: bool, v: u32) -> bool {
    e matches ExprV::Assign { target, value, .. } && defines(as_local(*target), *value, other, v)
}

/// Adds the variable that an assignment gives a value to `out`.
fn collect_assign_def(e: &Expr, other: bool, out: &mut HashSet<u32>)
    ensures
        forall|v: u32| #[trigger]
            final(out)@.contains(v) <==> old(out)@.contains(v) || assign_defines(e@, other, v),
{
    if let Expr::Assign { target, value, .. } = e {
        assert(value@ is This <==> **value is This);
        if let Some(var) = local_var(target) {
            if !(other && matches!(&**value, Expr::This)) {
                out.insert(var);
            }
        }
    }
}

/// `s` gives `v` a value; with `other`, one that is not `this`.
pub open spec fn defined_in(s: StmtV, other: bool, v: u32) -> bool
    decreases s,
{
    match s {
        StmtV::Block(items) => defined_in_seq(items, other, v),
        StmtV::ExprStmt(e) => assign_defines(e, other, v),
        StmtV::LocalDef { var, init, .. } => init matches Some(e)
            && defines(Some(var), e, other, v),
        StmtV::If { then_stmt, else_stmt, .. } => defined_in(*then_stmt, other, v)
            || defined_in_opt(else_stmt, other, v),
        StmtV::While { body, .. } => defined_in(*body, other, v),
        StmtV::DoWhile { body, .. } => defined_in(*body, other, v),
        StmtV::For { init, body, .. } => defined_in_seq(init, other, v)
            || defined_in(*body, other, v),
        StmtV::ForEach { body, .. } => defined_in(*body, other, v),
        StmtV::Switch { cases, default, .. } => defined_in_cases(cases, other, v)
            || defined_in_opt(default, other, v),
        StmtV::Try { body, catches, finally } => defined_in(*body, other, v)
            || defined_in_catches(catches, other, v) || defined_in_opt(finally, other, v),
        StmtV::TryWithResources { resources, body, catches, finally } => defined_in_seq(
            resources,
            other,
            v,
        )
            || defined_in(*body, other, v) || defined_in_catches(catches, other, v)
            || defined_in_opt(finally, other, v),
        StmtV::Synchronized { body, .. } => defined_in(*body, other, v),
        StmtV::Labeled { body, .. } => defined_in(*body, other, v),
        _ => false,
    }
}

/// [`defined_in`] where there is a value.
pub open spec fn defined_in_opt(o: Option<Box<StmtV>>, other: bool, v: u32) -> bool
    decreases o,
{
    match o {
        Some(x) => defined_in(*x, other, v),
        None => false,
    }
}

/// [`defined_in`] over a list.
pub open spec fn defined_in_seq(l: Seq<StmtV>, other: bool, v: u32) -> bool
    decreases l,
{
    exists|i: int| 0 <= i < l.len() && defined_in(#[trigger] l[i], other, v)
}

/// [`defined_in`] inside a switch arm.
pub open spec fn defined_in_case(c: CaseGroupV, other: bool, v: u32) -> bool
    decreases c,
{
    defined_in_seq(c.body, other, v)
}

/// [`defined_in`] over a list.
pub open spec fn defined_in_cases(l: Seq<CaseGroupV>, other: bool, v: u32) -> bool
    decreases l,
{
    exists|i: int| 0 <= i < l.len() && defined_in_case(#[trigger] l[i], other, v)
}

/// [`defined_in`] inside a catch clause.
pub open spec fn defined_in_catch(c: CatchV, other: bool, v: u32) -> bool
    decreases c,
{
    defined_in(*c.body, other, v)
}

/// [`defined_in`] over a list.
pub open spec fn defined_in_catches(l: Seq<CatchV>, other: bool, v: u32) -> bool
    decreases l,
{
    exists|i: int| 0 <= i < l.len() && defined_in_catch(#[trigger] l[i], other, v)
}

/// Adds to `out` the variables that `s` gives a value; with `other`, one that is
/// not `this`.
pub fn collect_defs(s: &Stmt, other: bool, out: &mut HashSet<u32>)
    ensures
        forall|v: u32|
            #[trigger] final(out)@.contains(v)
                <==> old(out)@.contains(v) || defined_in(s@, other, v),
    decreases s,
{
    match s {
        Stmt::Block(items) => { collect_defs_vec(items, other, out); },
        Stmt::ExprStmt(e) => collect_assign_def(e, other, out),
        Stmt::LocalDef { var, init, .. } => {
            if let Some(e) = init { if !(other && matches!(e, Expr::This)) { out.insert(*var); } }
        },
        Stmt::If { then_stmt, else_stmt, .. } => {
            collect_defs(then_stmt, other, out);
            collect_defs_opt(else_stmt, other, out);
        },
        Stmt::While { body, .. } => { collect_defs(body, other, out); },
        Stmt::DoWhile { body, .. } => { collect_defs(body, other, out); },
        Stmt::For { init, body, .. } => {
            collect_defs_vec(init, other, out);
            collect_defs(body, other, out);
        },
        Stmt::ForEach { body, .. } => { collect_defs(body, other, out); },
        Stmt::Switch { cases, default, .. } => {
            collect_defs_cases(cases, other, out);
            collect_defs_opt(default, other, out);
        },
        Stmt::Try { body, catches, finally } => {
            collect_defs(body, other, out);
            collect_defs_catches(catches, other, out);
            collect_defs_opt(finally, other, out);
        },
        Stmt::TryWithResources { resources, body, catches, finally } => {
            collect_defs_vec(resources, other, out);
            collect_defs(body, other, out);
            collect_defs_catches(catches, other, out);
            collect_defs_opt(finally, other, out);
        },
        Stmt::Synchronized { body, .. } => { collect_defs(body, other, out); },
        Stmt::Labeled { body, .. } => { collect_defs(body, other, out); },
        _ => {},
    }
}

/// `collect_defs` where there is a value.
pub fn collect_defs_opt(o: &Option<Box<Stmt>>, other: bool, out: &mut HashSet<u32>)
    ensures
        forall|v: u32|
            #[trigger] final(out)@.contains(v)
                <==> old(out)@.contains(v) || defined_in_opt(opt_stmt(*o), other, v),
    decreases o,
{
    if let Some(x) = o {
        collect_defs(x, other, out);
    }
}

/// `collect_defs` over a list.
#[verifier::loop_isolation(false)]
pub fn collect_defs_vec(l: &Vec<Stmt>, other: bool, out: &mut HashSet<u32>)
    ensures
        forall|v: u32|
            #[trigger] final(out)@.contains(v)
                <==> old(out)@.contains(v) || defined_in_seq(stmts(l@), other, v),
    decreases l,
{
    let mut i: usize = 0;
    while i < l.len()
        invariant
            i <= l.len(),
            forall|v: u32| #[trigger] out@.contains(v) <==> old(out)@.contains(v) || exists|j: int|
                0 <= j < i && defined_in(#[trigger] stmts(l@)[j], other, v),
        decreases l.len() - i,
    {
        assert(decreases_to!(l => l@[i as int]));
        assert(stmts(l@)[i as int] == l@[i as int]@);
        collect_defs(&l[i], other, out);
        i += 1;
    }
}

/// `collect_defs` inside a switch arm.
pub fn collect_defs_case(c: &CaseGroup, other: bool, out: &mut HashSet<u32>)
    ensures
        forall|v: u32|
            #[trigger] final(out)@.contains(v)
                <==> old(out)@.contains(v) || defined_in_case(c@, other, v),
    decreases c,
{
    collect_defs_vec(&c.body, other, out);
}

/// `collect_defs` over a list.
#[verifier::loop_isolation(false)]
pub fn collect_defs_cases(l: &Vec<CaseGroup>, other: bool, out: &mut HashSet<u32>)
    ensures
        forall|v: u32|
            #[trigger] final(out)@.contains(v)
                <==> old(out)@.contains(v) || defined_in_cases(case_groups(l@), other, v),
    decreases l,
{
    let mut i: usize = 0;
    while i < l.len()
        invariant
            i <= l.len(),
            forall|v: u32| #[trigger] out@.contains(v) <==> old(out)@.contains(v) || exists|j: int|
                0 <= j < i && defined_in_case(#[trigger] case_groups(l@)[j], other, v),
        decreases l.len() - i,
    {
        assert(decreases_to!(l => l@[i as int]));
        assert(case_groups(l@)[i as int] == l@[i as int]@);
        collect_defs_case(&l[i], other, out);
        i += 1;
    }
}

/// `collect_defs` inside a catch clause.
pub fn collect_defs_catch(c: &Catch, other: bool, out: &mut HashSet<u32>)
    ensures
        forall|v: u32|
            #[trigger] final(out)@.contains(v)
                <==> old(out)@.contains(v) || defined_in_catch(c@, other, v),
    decreases c,
{
    collect_defs(&c.body, other, out);
}

/// `collect_defs` over a list.
#[verifier::loop_isolation(false)]
pub fn collect_defs_catches(l: &Vec<Catch>, other: bool, out: &mut HashSet<u32>)
    ensures
        forall|v: u32|
            #[trigger] final(out)@.contains(v)
                <==> old(out)@.contains(v) || defined_in_catches(catch_list(l@), other, v),
    decreases l,
{
    let mut i: usize = 0;
    while i < l.len()
        invariant
            i <= l.len(),
            forall|v: u32| #[trigger] out@.contains(v) <==> old(out)@.contains(v) || exists|j: int|
                0 <= j < i && defined_in_catch(#[trigger] catch_list(l@)[j], other, v),
        decreases l.len() - i,
    {
        assert(decreases_to!(l => l@[i as int]));
        assert(catch_list(l@)[i as int] == l@[i as int]@);
        collect_defs_catch(&l[i], other, out);
        i += 1;
    }
}

/// `e` with the variables in `set` replaced by `this`.
pub open spec fn this_folded(e: ExprV, set: Set<u32>) -> ExprV
    decreases e,
{
    match e {
        ExprV::Const(c) => ExprV::Const(c),
        ExprV::Local { var, .. } => if set.contains(var) { ExprV::This } else { e },
        ExprV::This => ExprV::This,
        ExprV::New { cls, ty, args, raw } => ExprV::New {
            cls,
            ty,
            args: this_folded_exprs(args, set),
            raw,
        },
        ExprV::NewArray { elem, dims, trailing_dims, init } => ExprV::NewArray {
            elem,
            dims: this_folded_exprs(dims, set),
            trailing_dims,
            init: this_folded_oexprs(init, set),
        },
        ExprV::Field { owner, cls, name, ty, is_static } => ExprV::Field {
            owner: this_folded_opt(owner, set),
            cls,
            name,
            ty,
            is_static,
        },
        ExprV::Method {
            owner,
            cls,
            name,
            desc,
            args,
            is_static,
            is_interface,
            is_special,
            is_super,
            is_dynamic,
            type_args,
        } => ExprV::Method {
            owner: this_folded_opt(owner, set),
            cls,
            name,
            desc,
            args: this_folded_exprs(args, set),
            is_static,
            is_interface,
            is_special,
            is_super,
            is_dynamic,
            type_args,
        },
        ExprV::ArrayIndex { array, index } => ExprV::ArrayIndex {
            array: Box::new(this_folded(*array, set)),
            index: Box::new(this_folded(*index, set)),
        },
        ExprV::Cast { ty, e } => ExprV::Cast { ty, e: Box::new(this_folded(*e, set)) },
        ExprV::InstanceOf { e, ty } => ExprV::InstanceOf { e: Box::new(this_folded(*e, set)), ty },
        ExprV::Un { op, e } => ExprV::Un { op, e: Box::new(this_folded(*e, set)) },
        ExprV::Bin { op, l, r, ty } => ExprV::Bin {
            op,
            l: Box::new(this_folded(*l, set)),
            r: Box::new(this_folded(*r, set)),
            ty,
        },
        ExprV::Cond { c, t, f } => ExprV::Cond {
            c: Box::new(this_folded(*c, set)),
            t: Box::new(this_folded(*t, set)),
            f: Box::new(this_folded(*f, set)),
        },
        ExprV::Assign { target, op, value } => ExprV::Assign {
            target: Box::new(this_folded(*target, set)),
            op,
            value: Box::new(this_folded(*value, set)),
        },
        ExprV::PreIncDec { e, delta, wide } => ExprV::PreIncDec {
            e: Box::new(this_folded(*e, set)),
            delta,
            wide,
        },
        ExprV::PostIncDec { e, delta, wide } => ExprV::PostIncDec {
            e: Box::new(this_folded(*e, set)),
            delta,
            wide,
        },
        ExprV::Lambda(l) => ExprV::Lambda(Box::new(this_folded_captures(*l, set))),
        ExprV::StringConcat(parts) => ExprV::StringConcat(this_folded_parts(parts, set)),
        ExprV::Raw(text) => ExprV::Raw(text),
        ExprV::RawT(text, ty) => ExprV::RawT(text, ty),
        ExprV::Invokedynamic {
            name,
            desc,
            args,
            bsm_text,
            bsm_static_args,
        } => ExprV::Invokedynamic {
            name,
            desc,
            args: this_folded_exprs(args, set),
            bsm_text,
            bsm_static_args,
        },
        ExprV::AnonNew { cls, base, args, body } => ExprV::AnonNew {
            cls,
            base,
            args: this_folded_exprs(args, set),
            body,
        },
        ExprV::NewMultiArray { ty, dims } => ExprV::NewMultiArray {
            ty,
            dims: this_folded_exprs(dims, set),
        },
        _ => e,
    }
}

/// [`this_folded`] where there is a value.
pub open spec fn this_folded_opt(o: Option<Box<ExprV>>, set: Set<u32>) -> Option<Box<ExprV>>
    decreases o,
{
    match o {
        Some(x) => Some(Box::new(this_folded(*x, set))),
        None => None,
    }
}

/// [`this_folded`] where there is a value.
pub open spec fn this_folded_oexprs(o: Option<Seq<ExprV>>, set: Set<u32>) -> Option<Seq<ExprV>>
    decreases o,
{
    match o {
        Some(x) => Some(this_folded_exprs(x, set)),
        None => None,
    }
}

/// [`this_folded`] inside the captures of a lambda.
pub open spec fn this_folded_captures(l: LambdaExprV, set: Set<u32>) -> LambdaExprV
    decreases l,
{
    LambdaExprV { captures: this_folded_exprs(l.captures, set), ..l }
}

/// [`this_folded`] over a list.
pub open spec fn this_folded_exprs(v: Seq<ExprV>, set: Set<u32>) -> Seq<ExprV>
    decreases v,
{
    Seq::new(v.len(), |i: int| if 0 <= i < v.len() { this_folded(v[i], set) } else { arbitrary() })
}

/// [`this_folded`] inside a concatenation piece.
pub open spec fn this_folded_part(p: ConcatPartV, set: Set<u32>) -> ConcatPartV
    decreases p,
{
    match p {
        ConcatPartV::Str(e) => ConcatPartV::Str(this_folded(e, set)),
        ConcatPartV::Const(_) => p,
    }
}

/// [`this_folded`] over a list.
pub open spec fn this_folded_parts(v: Seq<ConcatPartV>, set: Set<u32>) -> Seq<ConcatPartV>
    decreases v,
{
    Seq::new(
        v.len(),
        |i: int| if 0 <= i < v.len() { this_folded_part(v[i], set) } else { arbitrary() },
    )
}

/// [`this_folded`] where there is a value.
pub open spec fn this_folded_oexpr(o: Option<ExprV>, set: Set<u32>) -> Option<ExprV>
    decreases o,
{
    match o {
        Some(x) => Some(this_folded(x, set)),
        None => None,
    }
}

/// Replaces the variables in `set` by `this` inside `e`.
pub fn fold_this_expr(e: &mut Expr, set: &HashSet<u32>)
    ensures
        final(e)@ == this_folded(old(e)@, set@),
    decreases *old(e),
{
    match e {
        Expr::Const(_) => {  },
        Expr::Local { var, .. } => { if set.contains(var) { *e = Expr::This; } },
        Expr::This => {  },
        Expr::New { args, .. } => { fold_this_expr_exprs(args, set); },
        Expr::NewArray { dims, init, .. } => {
            fold_this_expr_exprs(dims, set);
            fold_this_expr_oexprs(init, set);
        },
        Expr::Field { owner, .. } => { fold_this_expr_opt(owner, set); },
        Expr::Method { owner, args, .. } => {
            fold_this_expr_opt(owner, set);
            fold_this_expr_exprs(args, set);
        },
        Expr::ArrayIndex { array, index } => {
            fold_this_expr(array, set);
            fold_this_expr(index, set);
        },
        Expr::Cast { e, .. } => { fold_this_expr(e, set); },
        Expr::InstanceOf { e, .. } => { fold_this_expr(e, set); },
        Expr::Un { e, .. } => { fold_this_expr(e, set); },
        Expr::Bin { l, r, .. } => { fold_this_expr(l, set); fold_this_expr(r, set); },
        Expr::Cond { c, t, f } => {
            fold_this_expr(c, set);
            fold_this_expr(t, set);
            fold_this_expr(f, set);
        },
        Expr::Assign { target, value, .. } => {
            fold_this_expr(target, set);
            fold_this_expr(value, set);
        },
        Expr::PreIncDec { e, .. } => { fold_this_expr(e, set); },
        Expr::PostIncDec { e, .. } => { fold_this_expr(e, set); },
        Expr::Lambda(l) => { fold_this_expr_captures(l, set); },
        Expr::StringConcat(parts) => { fold_this_expr_parts(parts, set); },
        Expr::Raw(_) => {  },
        Expr::RawT(_, _) => {  },
        Expr::Invokedynamic { args, .. } => { fold_this_expr_exprs(args, set); },
        Expr::AnonNew { args, .. } => { fold_this_expr_exprs(args, set); },
        Expr::NewMultiArray { dims, .. } => { fold_this_expr_exprs(dims, set); },
        _ => {},
    }
}

/// `fold_this_expr` where there is a value.
pub fn fold_this_expr_opt(o: &mut Option<Box<Expr>>, set: &HashSet<u32>)
    ensures
        opt_box(*final(o)) == this_folded_opt(opt_box(*old(o)), set@),
    decreases *old(o),
{
    if let Some(x) = o {
        fold_this_expr(x, set);
    }
}

/// `fold_this_expr` where there is a value.
pub fn fold_this_expr_oexprs(o: &mut Option<Vec<Expr>>, set: &HashSet<u32>)
    ensures
        opt_exprs(*final(o)) == this_folded_oexprs(opt_exprs(*old(o)), set@),
    decreases *old(o),
{
    if let Some(x) = o {
        fold_this_expr_exprs(x, set);
    }
}

/// `fold_this_expr` inside the captures of a lambda.
pub fn fold_this_expr_captures(l: &mut LambdaExpr, set: &HashSet<u32>)
    ensures
        final(l)@ == this_folded_captures(old(l)@, set@),
    decreases *old(l),
{
    fold_this_expr_exprs(&mut l.captures, set);
}

/// `fold_this_expr` over a list.
#[verifier::loop_isolation(false)]
pub fn fold_this_expr_exprs(v: &mut Vec<Expr>, set: &HashSet<u32>)
    ensures
        exprs(final(v)@) == this_folded_exprs(exprs(old(v)@), set@),
    decreases *old(v),
{
    let mut i: usize = 0;
    while i < v.len()
        invariant
            i <= v.len(),
            v.len() == old(v).len(),
            forall|j: int| 0 <= j < i ==> (#[trigger] v@[j])@ == this_folded(old(v)@[j]@, set@),
            forall|j: int| i <= j < v.len() ==> #[trigger] v@[j] == old(v)@[j],
        decreases v.len() - i,
    {
        assert(decreases_to!(*old(v) => v@[i as int]));
        fold_this_expr(&mut v[i], set);
        i += 1;
    }
    assert(exprs(v@) =~= this_folded_exprs(exprs(old(v)@), set@));
}

/// `fold_this_expr` inside a concatenation piece.
pub fn fold_this_expr_part(p: &mut ConcatPart, set: &HashSet<u32>)
    ensures
        final(p)@ == this_folded_part(old(p)@, set@),
    decreases *old(p),
{
    match p {
        ConcatPart::Str(e) => fold_this_expr(e, set),
        ConcatPart::Const(_) => {},
    }
}

/// `fold_this_expr` over a list.
#[verifier::loop_isolation(false)]
pub fn fold_this_expr_parts(v: &mut Vec<ConcatPart>, set: &HashSet<u32>)
    ensures
        concat_parts(final(v)@) == this_folded_parts(concat_parts(old(v)@), set@),
    decreases *old(v),
{
    let mut i: usize = 0;
    while i < v.len()
        invariant
            i <= v.len(),
            v.len() == old(v).len(),
            forall|j: int|
                0 <= j < i ==> (#[trigger] v@[j])@ == this_folded_part(old(v)@[j]@, set@),
            forall|j: int| i <= j < v.len() ==> #[trigger] v@[j] == old(v)@[j],
        decreases v.len() - i,
    {
        assert(decreases_to!(*old(v) => v@[i as int]));
        fold_this_expr_part(&mut v[i], set);
        i += 1;
    }
    assert(concat_parts(v@) =~= this_folded_parts(concat_parts(old(v)@), set@));
}

/// `fold_this_expr` where there is a value.
pub fn fold_this_expr_oexpr(o: &mut Option<Expr>, set: &HashSet<u32>)
    ensures
        opt_expr(*final(o)) == this_folded_oexpr(opt_expr(*old(o)), set@),
    decreases *old(o),
{
    if let Some(x) = o {
        fold_this_expr(x, set);
    }
}

/// `e` assigns a variable in `set`.
pub open spec fn assigns_member(e: ExprV, set: Set<u32>) -> bool {
    e matches ExprV::Assign { target, .. } && as_local(*target) matches Some(v) && set.contains(v)
}

/// Whether `e` assigns a variable in `set`.
fn assigns_one_of(e: &Expr, set: &HashSet<u32>) -> (r: bool)
    ensures
        r == assigns_member(e@, set@),
{
    match e {
        Expr::Assign { target, .. } => match local_var(target) {
            Some(v) => set.contains(&v),
            None => false,
        },
        _ => false,
    }
}

/// `s` with the variables in `set` replaced by `this` and their definitions dropped.
pub open spec fn stmt_this_folded(s: StmtV, set: Set<u32>) -> StmtV
    decreases s,
{
    match s {
        StmtV::Block(items) => StmtV::Block(nonempty(stmt_this_folded_seq(items, set))),
        StmtV::ExprStmt(e) => if assigns_member(e, set) {
            empty_block()
        } else {
            StmtV::ExprStmt(this_folded(e, set))
        },
        StmtV::LocalDef { var, init, is_final, force_type } => if set.contains(var)
            && init is Some {
            empty_block()
        } else {
            StmtV::LocalDef { var, init: this_folded_oexpr(init, set), is_final, force_type }
        },
        StmtV::Return(e) => StmtV::Return(this_folded_oexpr(e, set)),
        StmtV::Throw(e) => StmtV::Throw(this_folded(e, set)),
        StmtV::If { cond, then_stmt, else_stmt } => StmtV::If {
            cond: this_folded(cond, set),
            then_stmt: Box::new(stmt_this_folded(*then_stmt, set)),
            else_stmt: stmt_this_folded_opt(else_stmt, set),
        },
        StmtV::While { cond, body } => StmtV::While {
            cond: this_folded(cond, set),
            body: Box::new(stmt_this_folded(*body, set)),
        },
        StmtV::DoWhile { body, cond } => StmtV::DoWhile {
            body: Box::new(stmt_this_folded(*body, set)),
            cond: this_folded(cond, set),
        },
        StmtV::For { init, cond, update, body } => StmtV::For {
            init: stmt_this_folded_seq(init, set),
            cond: this_folded_oexpr(cond, set),
            update: this_folded_exprs(update, set),
            body: Box::new(stmt_this_folded(*body, set)),
        },
        StmtV::ForEach { var, iterable, is_array, body } => StmtV::ForEach {
            var,
            iterable: this_folded(iterable, set),
            is_array,
            body: Box::new(stmt_this_folded(*body, set)),
        },
        StmtV::Switch { selector, cases, default, on_string } => StmtV::Switch {
            selector: this_folded(selector, set),
            cases: stmt_this_folded_cases(cases, set),
            default: stmt_this_folded_opt(default, set),
            on_string,
        },
        StmtV::Try { body, catches, finally } => StmtV::Try {
            body: Box::new(stmt_this_folded(*body, set)),
            catches: stmt_this_folded_catches(catches, set),
            finally: stmt_this_folded_opt(finally, set),
        },
        StmtV::TryWithResources { resources, body, catches, finally } => StmtV::TryWithResources {
            resources: stmt_this_folded_seq(resources, set),
            body: Box::new(stmt_this_folded(*body, set)),
            catches: stmt_this_folded_catches(catches, set),
            finally: stmt_this_folded_opt(finally, set),
        },
        StmtV::Synchronized { lock, body } => StmtV::Synchronized {
            lock: this_folded(lock, set),
            body: Box::new(stmt_this_folded(*body, set)),
        },
        StmtV::Label(n) => StmtV::Label(n),
        StmtV::Goto(n) => StmtV::Goto(n),
        StmtV::ClassDecl { name, header, body } => StmtV::ClassDecl { name, header, body },
        StmtV::Labeled { label, body } => StmtV::Labeled {
            label,
            body: Box::new(stmt_this_folded(*body, set)),
        },
        StmtV::Break(label) => StmtV::Break(label),
        StmtV::Continue(label) => StmtV::Continue(label),
        StmtV::Comment(text) => StmtV::Comment(text),
        StmtV::Assert { cond, msg } => StmtV::Assert {
            cond: this_folded(cond, set),
            msg: this_folded_oexpr(msg, set),
        },
        StmtV::TernaryValue { e } => StmtV::TernaryValue { e: this_folded(e, set) },
        StmtV::MonitorEnter(e) => StmtV::MonitorEnter(this_folded(e, set)),
        StmtV::MonitorExit(e) => StmtV::MonitorExit(this_folded(e, set)),
        _ => s,
    }
}

/// [`stmt_this_folded`] where there is a value.
pub open spec fn stmt_this_folded_opt(o: Option<Box<StmtV>>, set: Set<u32>) -> Option<Box<StmtV>>
    decreases o,
{
    match o {
        Some(x) => Some(Box::new(stmt_this_folded(*x, set))),
        None => None,
    }
}

/// [`stmt_this_folded`] over a list.
pub open spec fn stmt_this_folded_seq(v: Seq<StmtV>, set: Set<u32>) -> Seq<StmtV>
    decreases v,
{
    Seq::new(
        v.len(),
        |i: int| if 0 <= i < v.len() { stmt_this_folded(v[i], set) } else { arbitrary() },
    )
}

/// [`stmt_this_folded`] inside a switch arm.
pub open spec fn stmt_this_folded_case(c: CaseGroupV, set: Set<u32>) -> CaseGroupV
    decreases c,
{
    CaseGroupV {
        guard: this_folded_oexpr(c.guard, set),
        body: stmt_this_folded_seq(c.body, set),
        ..c
    }
}

/// [`stmt_this_folded`] over a list.
pub open spec fn stmt_this_folded_cases(v: Seq<CaseGroupV>, set: Set<u32>) -> Seq<CaseGroupV>
    decreases v,
{
    Seq::new(
        v.len(),
        |i: int| if 0 <= i < v.len() { stmt_this_folded_case(v[i], set) } else { arbitrary() },
    )
}

/// [`stmt_this_folded`] inside a catch clause.
pub open spec fn stmt_this_folded_catch(c: CatchV, set: Set<u32>) -> CatchV
    decreases c,
{
    CatchV { body: Box::new(stmt_this_folded(*c.body, set)), ..c }
}

/// [`stmt_this_folded`] over a list.
pub open spec fn stmt_this_folded_catches(v: Seq<CatchV>, set: Set<u32>) -> Seq<CatchV>
    decreases v,
{
    Seq::new(
        v.len(),
        |i: int| if 0 <= i < v.len() { stmt_this_folded_catch(v[i], set) } else { arbitrary() },
    )
}

/// Replaces the variables in `set` by `this` and drops their definitions.
pub fn fold_this_stmt(s: &mut Stmt, set: &HashSet<u32>)
    ensures
        final(s)@ == stmt_this_folded(old(s)@, set@),
    decreases *old(s),
{
    match s {
        Stmt::Block(items) => { fold_this_stmt_vec(items, set); drop_empty(items); },
        Stmt::ExprStmt(e) => {
            if assigns_one_of(e, set) { *s = no_stmt(); } else { fold_this_expr(e, set); }
        },
        Stmt::LocalDef { var, init, .. } => {
            if set.contains(var) && init.is_some() {
                *s = no_stmt();
            } else {
                fold_this_expr_oexpr(init, set);
            }
        },
        Stmt::Return(e) => { fold_this_expr_oexpr(e, set); },
        Stmt::Throw(e) => { fold_this_expr(e, set); },
        Stmt::If { cond, then_stmt, else_stmt } => {
            fold_this_expr(cond, set);
            fold_this_stmt(then_stmt, set);
            fold_this_stmt_opt(else_stmt, set);
        },
        Stmt::While { cond, body } => { fold_this_expr(cond, set); fold_this_stmt(body, set); },
        Stmt::DoWhile { body, cond } => { fold_this_stmt(body, set); fold_this_expr(cond, set); },
        Stmt::For { init, cond, update, body } => {
            fold_this_stmt_vec(init, set);
            fold_this_expr_oexpr(cond, set);
            fold_this_expr_exprs(update, set);
            fold_this_stmt(body, set);
        },
        Stmt::ForEach { iterable, body, .. } => {
            fold_this_expr(iterable, set);
            fold_this_stmt(body, set);
        },
        Stmt::Switch { selector, cases, default, .. } => {
            fold_this_expr(selector, set);
            fold_this_stmt_cases(cases, set);
            fold_this_stmt_opt(default, set);
        },
        Stmt::Try { body, catches, finally } => {
            fold_this_stmt(body, set);
            fold_this_stmt_catches(catches, set);
            fold_this_stmt_opt(finally, set);
        },
        Stmt::TryWithResources { resources, body, catches, finally } => {
            fold_this_stmt_vec(resources, set);
            fold_this_stmt(body, set);
            fold_this_stmt_catches(catches, set);
            fold_this_stmt_opt(finally, set);
        },
        Stmt::Synchronized { lock, body } => {
            fold_this_expr(lock, set);
            fold_this_stmt(body, set);
        },
        Stmt::Label(_) => {  },
        Stmt::Goto(_) => {  },
        Stmt::ClassDecl { .. } => {  },
        Stmt::Labeled { body, .. } => { fold_this_stmt(body, set); },
        Stmt::Break(_) => {  },
        Stmt::Continue(_) => {  },
        Stmt::Comment(_) => {  },
        Stmt::Assert { cond, msg } => {
            fold_this_expr(cond, set);
            fold_this_expr_oexpr(msg, set);
        },
        Stmt::TernaryValue { e } => { fold_this_expr(e, set); },
        Stmt::MonitorEnter(e) => { fold_this_expr(e, set); },
        Stmt::MonitorExit(e) => { fold_this_expr(e, set); },
        _ => {},
    }
}

/// `fold_this_stmt` where there is a value.
pub fn fold_this_stmt_opt(o: &mut Option<Box<Stmt>>, set: &HashSet<u32>)
    ensures
        opt_stmt(*final(o)) == stmt_this_folded_opt(opt_stmt(*old(o)), set@),
    decreases *old(o),
{
    if let Some(x) = o {
        fold_this_stmt(x, set);
    }
}

/// `fold_this_stmt` over a list.
#[verifier::loop_isolation(false)]
pub fn fold_this_stmt_vec(v: &mut Vec<Stmt>, set: &HashSet<u32>)
    ensures
        stmts(final(v)@) == stmt_this_folded_seq(stmts(old(v)@), set@),
    decreases *old(v),
{
    let mut i: usize = 0;
    while i < v.len()
        invariant
            i <= v.len(),
            v.len() == old(v).len(),
            forall|j: int|
                0 <= j < i ==> (#[trigger] v@[j])@ == stmt_this_folded(old(v)@[j]@, set@),
            forall|j: int| i <= j < v.len() ==> #[trigger] v@[j] == old(v)@[j],
        decreases v.len() - i,
    {
        assert(decreases_to!(*old(v) => v@[i as int]));
        fold_this_stmt(&mut v[i], set);
        i += 1;
    }
    assert(stmts(v@) =~= stmt_this_folded_seq(stmts(old(v)@), set@));
}

/// `fold_this_stmt` inside a switch arm.
pub fn fold_this_stmt_case(c: &mut CaseGroup, set: &HashSet<u32>)
    ensures
        final(c)@ == stmt_this_folded_case(old(c)@, set@),
    decreases *old(c),
{
    fold_this_expr_oexpr(&mut c.guard, set);
    fold_this_stmt_vec(&mut c.body, set);
}

/// `fold_this_stmt` over a list.
#[verifier::loop_isolation(false)]
pub fn fold_this_stmt_cases(v: &mut Vec<CaseGroup>, set: &HashSet<u32>)
    ensures
        case_groups(final(v)@) == stmt_this_folded_cases(case_groups(old(v)@), set@),
    decreases *old(v),
{
    let mut i: usize = 0;
    while i < v.len()
        invariant
            i <= v.len(),
            v.len() == old(v).len(),
            forall|j: int|
                0 <= j < i ==> (#[trigger] v@[j])@ == stmt_this_folded_case(old(v)@[j]@, set@),
            forall|j: int| i <= j < v.len() ==> #[trigger] v@[j] == old(v)@[j],
        decreases v.len() - i,
    {
        assert(decreases_to!(*old(v) => v@[i as int]));
        fold_this_stmt_case(&mut v[i], set);
        i += 1;
    }
    assert(case_groups(v@) =~= stmt_this_folded_cases(case_groups(old(v)@), set@));
}

/// `fold_this_stmt` inside a catch clause.
pub fn fold_this_stmt_catch(c: &mut Catch, set: &HashSet<u32>)
    ensures
        final(c)@ == stmt_this_folded_catch(old(c)@, set@),
    decreases *old(c),
{
    fold_this_stmt(&mut c.body, set);
}

/// `fold_this_stmt` over a list.
#[verifier::loop_isolation(false)]
pub fn fold_this_stmt_catches(v: &mut Vec<Catch>, set: &HashSet<u32>)
    ensures
        catch_list(final(v)@) == stmt_this_folded_catches(catch_list(old(v)@), set@),
    decreases *old(v),
{
    let mut i: usize = 0;
    while i < v.len()
        invariant
            i <= v.len(),
            v.len() == old(v).len(),
            forall|j: int|
                0 <= j < i ==> (#[trigger] v@[j])@ == stmt_this_folded_catch(old(v)@[j]@, set@),
            forall|j: int| i <= j < v.len() ==> #[trigger] v@[j] == old(v)@[j],
        decreases v.len() - i,
    {
        assert(decreases_to!(*old(v) => v@[i as int]));
        fold_this_stmt_catch(&mut v[i], set);
        i += 1;
    }
    assert(catch_list(v@) =~= stmt_this_folded_catches(catch_list(old(v)@), set@));
}

/// The expression of a statement gives `v` a value other than by being an assignment
/// to it.
pub open spec fn embedded(e: ExprV, v: u32) -> bool {
    match e {
        ExprV::Assign { target, value, .. } => match as_local(*target) {
            Some(_) => assigns_in(*value, v),
            None => assigns_in(e, v),
        },
        _ => assigns_in(e, v),
    }
}

/// Whether the expression of a statement gives `v` a value other than by being an
/// assignment to it.
fn expr_embeds_def(e: &Expr, v: u32) -> (r: bool)
    ensures
        r == embedded(e@, v),
{
    match e {
        Expr::Assign { target, value, .. } => {
            if local_var(target).is_some() {
                expr_assigns_var(value, v)
            } else {
                expr_assigns_var(e, v)
            }
        },
        _ => expr_assigns_var(e, v),
    }
}

/// `v` is given a value inside an expression of `s`, by a loop header or by a catch
/// clause.
pub open spec fn embedded_in(s: StmtV, v: u32) -> bool
    decreases s,
{
    match s {
        StmtV::Block(items) => embedded_in_seq(items, v),
        StmtV::ExprStmt(e) => embedded(e, v),
        StmtV::LocalDef { init, .. } => assigns_in_oexpr(init, v),
        StmtV::Return(e) => assigns_in_oexpr(e, v),
        StmtV::Throw(e) => assigns_in(e, v),
        StmtV::If { cond, then_stmt, else_stmt } => assigns_in(cond, v)
            || embedded_in(*then_stmt, v) || embedded_in_opt(else_stmt, v),
        StmtV::While { cond, body } => assigns_in(cond, v) || embedded_in(*body, v),
        StmtV::DoWhile { body, cond } => embedded_in(*body, v) || assigns_in(cond, v),
        StmtV::For { init, cond, update, body } => embedded_in_seq(init, v)
            || assigns_in_oexpr(cond, v) || assigns_in_exprs(update, v) || embedded_in(*body, v),
        StmtV::ForEach { var, iterable, body, .. } => var == v || assigns_in(iterable, v)
            || embedded_in(*body, v),
        StmtV::Switch { selector, cases, default, .. } => assigns_in(selector, v)
            || embedded_in_cases(cases, v) || embedded_in_opt(default, v),
        StmtV::Try { body, catches, finally } => embedded_in(*body, v)
            || embedded_in_catches(catches, v) || embedded_in_opt(finally, v),
        StmtV::TryWithResources { resources, body, catches, finally } => embedded_in_seq(
            resources,
            v,
        )
            || embedded_in(*body, v) || embedded_in_catches(catches, v)
            || embedded_in_opt(finally, v),
        StmtV::Assert { cond, msg } => assigns_in(cond, v) || assigns_in_oexpr(msg, v),
        StmtV::Synchronized { lock, body } => assigns_in(lock, v) || embedded_in(*body, v),
        StmtV::TernaryValue { e } => assigns_in(e, v),
        StmtV::MonitorEnter(e) => assigns_in(e, v),
        StmtV::MonitorExit(e) => assigns_in(e, v),
        StmtV::Label(_) => false,
        StmtV::Goto(_) => false,
        StmtV::ClassDecl { .. } => false,
        StmtV::Labeled { body, .. } => embedded_in(*body, v),
        StmtV::Break(_) => false,
        StmtV::Continue(_) => false,
        StmtV::Comment(_) => false,
    }
}

/// [`embedded_in`] where there is a value.
pub open spec fn embedded_in_opt(o: Option<Box<StmtV>>, v: u32) -> bool
    decreases o,
{
    match o {
        Some(x) => embedded_in(*x, v),
        None => false,
    }
}

/// [`embedded_in`] over a list.
pub open spec fn embedded_in_seq(l: Seq<StmtV>, v: u32) -> bool
    decreases l,
{
    exists|i: int| 0 <= i < l.len() && embedded_in(#[trigger] l[i], v)
}

/// [`embedded_in`] inside a switch arm.
pub open spec fn embedded_in_case(c: CaseGroupV, v: u32) -> bool
    decreases c,
{
    assigns_in_oexpr(c.guard, v) || embedded_in_seq(c.body, v)
}

/// [`embedded_in`] over a list.
pub open spec fn embedded_in_cases(l: Seq<CaseGroupV>, v: u32) -> bool
    decreases l,
{
    exists|i: int| 0 <= i < l.len() && embedded_in_case(#[trigger] l[i], v)
}

/// [`embedded_in`] inside a catch clause.
pub open spec fn embedded_in_catch(c: CatchV, v: u32) -> bool
    decreases c,
{
    c.var == v || embedded_in(*c.body, v)
}

/// [`embedded_in`] over a list.
pub open spec fn embedded_in_catches(l: Seq<CatchV>, v: u32) -> bool
    decreases l,
{
    exists|i: int| 0 <= i < l.len() && embedded_in_catch(#[trigger] l[i], v)
}

/// Whether `v` is given a value inside an expression of `s`, by a loop header or by a
/// catch clause.
pub fn embeds_def(s: &Stmt, v: u32) -> (r: bool)
    ensures
        r == embedded_in(s@, v),
    decreases s,
{
    match s {
        Stmt::Block(items) => embeds_def_vec(items, v),
        Stmt::ExprStmt(e) => expr_embeds_def(e, v),
        Stmt::LocalDef { init, .. } => expr_assigns_var_oexpr(init, v),
        Stmt::Return(e) => expr_assigns_var_oexpr(e, v),
        Stmt::Throw(e) => expr_assigns_var(e, v),
        Stmt::If { cond, then_stmt, else_stmt } => expr_assigns_var(cond, v)
            || embeds_def(then_stmt, v) || embeds_def_opt(else_stmt, v),
        Stmt::While { cond, body } => expr_assigns_var(cond, v) || embeds_def(body, v),
        Stmt::DoWhile { body, cond } => embeds_def(body, v) || expr_assigns_var(cond, v),
        Stmt::For { init, cond, update, body } => embeds_def_vec(init, v)
            || expr_assigns_var_oexpr(cond, v) || expr_assigns_var_exprs(update, v)
            || embeds_def(body, v),
        Stmt::ForEach { var, iterable, body, .. } => *var == v || expr_assigns_var(iterable, v)
            || embeds_def(body, v),
        Stmt::Switch { selector, cases, default, .. } => expr_assigns_var(selector, v)
            || embeds_def_cases(cases, v) || embeds_def_opt(default, v),
        Stmt::Try { body, catches, finally } => embeds_def(body, v)
            || embeds_def_catches(catches, v) || embeds_def_opt(finally, v),
        Stmt::TryWithResources { resources, body, catches, finally } => embeds_def_vec(resources, v)
            || embeds_def(body, v) || embeds_def_catches(catches, v) || embeds_def_opt(finally, v),
        Stmt::Assert { cond, msg } => expr_assigns_var(cond, v) || expr_assigns_var_oexpr(msg, v),
        Stmt::Synchronized { lock, body } => expr_assigns_var(lock, v) || embeds_def(body, v),
        Stmt::TernaryValue { e } => expr_assigns_var(e, v),
        Stmt::MonitorEnter(e) => expr_assigns_var(e, v),
        Stmt::MonitorExit(e) => expr_assigns_var(e, v),
        Stmt::Label(_) => false,
        Stmt::Goto(_) => false,
        Stmt::ClassDecl { .. } => false,
        Stmt::Labeled { body, .. } => embeds_def(body, v),
        Stmt::Break(_) => false,
        Stmt::Continue(_) => false,
        Stmt::Comment(_) => false,
    }
}

/// `embeds_def` where there is a value.
pub fn embeds_def_opt(o: &Option<Box<Stmt>>, v: u32) -> (r: bool)
    ensures
        r == embedded_in_opt(opt_stmt(*o), v),
    decreases o,
{
    match o {
        Some(x) => embeds_def(x, v),
        None => false,
    }
}

/// `embeds_def` over a list.
#[verifier::loop_isolation(false)]
pub fn embeds_def_vec(l: &Vec<Stmt>, v: u32) -> (r: bool)
    ensures
        r == embedded_in_seq(stmts(l@), v),
    decreases l,
{
    let mut i: usize = 0;
    while i < l.len()
        invariant
            i <= l.len(),
            forall|j: int| 0 <= j < i ==> !(embedded_in(#[trigger] stmts(l@)[j], v)),
        decreases l.len() - i,
    {
        assert(decreases_to!(l => l@[i as int]));
        assert(stmts(l@)[i as int] == l@[i as int]@);
        if embeds_def(&l[i], v) {
            return true;
        }
        i += 1;
    }
    false
}

/// `embeds_def` inside a switch arm.
pub fn embeds_def_case(c: &CaseGroup, v: u32) -> (r: bool)
    ensures
        r == embedded_in_case(c@, v),
    decreases c,
{
    expr_assigns_var_oexpr(&c.guard, v) || embeds_def_vec(&c.body, v)
}

/// `embeds_def` over a list.
#[verifier::loop_isolation(false)]
pub fn embeds_def_cases(l: &Vec<CaseGroup>, v: u32) -> (r: bool)
    ensures
        r == embedded_in_cases(case_groups(l@), v),
    decreases l,
{
    let mut i: usize = 0;
    while i < l.len()
        invariant
            i <= l.len(),
            forall|j: int| 0 <= j < i ==> !(embedded_in_case(#[trigger] case_groups(l@)[j], v)),
        decreases l.len() - i,
    {
        assert(decreases_to!(l => l@[i as int]));
        assert(case_groups(l@)[i as int] == l@[i as int]@);
        if embeds_def_case(&l[i], v) {
            return true;
        }
        i += 1;
    }
    false
}

/// `embeds_def` inside a catch clause.
pub fn embeds_def_catch(c: &Catch, v: u32) -> (r: bool)
    ensures
        r == embedded_in_catch(c@, v),
    decreases c,
{
    c.var == v || embeds_def(&c.body, v)
}

/// `embeds_def` over a list.
#[verifier::loop_isolation(false)]
pub fn embeds_def_catches(l: &Vec<Catch>, v: u32) -> (r: bool)
    ensures
        r == embedded_in_catches(catch_list(l@), v),
    decreases l,
{
    let mut i: usize = 0;
    while i < l.len()
        invariant
            i <= l.len(),
            forall|j: int| 0 <= j < i ==> !(embedded_in_catch(#[trigger] catch_list(l@)[j], v)),
        decreases l.len() - i,
    {
        assert(decreases_to!(l => l@[i as int]));
        assert(catch_list(l@)[i as int] == l@[i as int]@);
        if embeds_def_catch(&l[i], v) {
            return true;
        }
        i += 1;
    }
    false
}

/// The stack variables that statements give `this` and nothing else, and that no
/// expression gives a value.
pub open spec fn this_only(s: StmtV, stack_vars: Seq<u32>) -> Set<u32> {
    Set::new(
        |v: u32|
            stack_vars.contains(v) && defined_in(s, false, v) && !defined_in(s, true, v)
                && !embedded_in(s, v),
    )
}

/// Replaces stack variables that only ever hold `this` by `this`.
pub fn fold_this_stack_vars(body: &mut Stmt, stack_vars: &Vec<u32>)
    ensures
        final(body)@ == if this_only(old(body)@, stack_vars@) == Set::<u32>::empty() {
            old(body)@
        } else {
            stmt_this_folded(old(body)@, this_only(old(body)@, stack_vars@))
        },
{
    if stack_vars.len() == 0 {
        assert(this_only(body@, stack_vars@) =~= Set::<u32>::empty());
        return ;
    }
    let mut defined: HashSet<u32> = HashSet::new();
    let mut other: HashSet<u32> = HashSet::new();
    collect_defs(body, false, &mut defined);
    collect_defs(body, true, &mut other);
    let mut set: HashSet<u32> = HashSet::new();
    let mut i: usize = 0;
    while i < stack_vars.len()
        invariant
            i <= stack_vars.len(),
            forall|v: u32| #[trigger]
                set@.contains(v) <==> defined@.contains(v) && !other@.contains(v) && !embedded_in(
                    body@,
                    v,
                ) && exists|j: int| 0 <= j < i && #[trigger] stack_vars@[j] == v,
        decreases stack_vars.len() - i,
    {
        let v = stack_vars[i];
        if defined.contains(&v) && !other.contains(&v) && !embeds_def(body, v) {
            set.insert(v);
        }
        i += 1;
    }
    assert(set@ =~= this_only(body@, stack_vars@));
    if set.is_empty() {
        return ;
    }
    fold_this_stmt(body, &set);
}

} // verus!
