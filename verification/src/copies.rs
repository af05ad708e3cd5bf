//! What holds of statements that differ in the names of their variables.
use crate::expr::{ConcatPartV, ExprV, LambdaExprV};
use crate::finallys::{
    expr_normed, expr_normed_captures, expr_normed_exprs, expr_normed_oexpr, expr_normed_oexprs,
    expr_normed_opt, expr_normed_part, expr_normed_parts, numbered, position, stmt_normed,
    stmt_normed_case, stmt_normed_cases, stmt_normed_catch, stmt_normed_catches, stmt_normed_opt,
    stmt_normed_seq,
};
use crate::stmt::{CaseGroupV, CatchV, StmtV};
use vstd::prelude::*;

verus! {

/// `e` with each variable `v` replaced by `f(v)`.
pub open spec fn expr_mapped(e: ExprV, f: spec_fn(u32) -> u32) -> ExprV
    decreases e,
{
    match e {
        ExprV::Const(c) => ExprV::Const(c),
        ExprV::Local { var, ty } => ExprV::Local { var: f(var), ty },
        ExprV::This => ExprV::This,
        ExprV::New { cls, ty, args, raw } => ExprV::New {
            cls,
            ty,
            args: expr_mapped_exprs(args, f),
            raw,
        },
        ExprV::NewArray { elem, dims, trailing_dims, init } => ExprV::NewArray {
            elem,
            dims: expr_mapped_exprs(dims, f),
            trailing_dims,
            init: expr_mapped_oexprs(init, f),
        },
        ExprV::NewMultiArray { ty, dims } => ExprV::NewMultiArray {
            ty,
            dims: expr_mapped_exprs(dims, f),
        },
        ExprV::Field { owner, cls, name, ty, is_static } => ExprV::Field {
            owner: expr_mapped_opt(owner, f),
            cls,
            name,
            ty,
            is_static,
        },
        ExprV::Method {
            owner,
            cls,
            name,
            desc,
            args,
            is_static,
            is_interface,
            is_special,
            is_super,
            is_dynamic,
            type_args,
        } => ExprV::Method {
            owner: expr_mapped_opt(owner, f),
            cls,
            name,
            desc,
            args: expr_mapped_exprs(args, f),
            is_static,
            is_interface,
            is_special,
            is_super,
            is_dynamic,
            type_args,
        },
        ExprV::ArrayIndex { array, index } => ExprV::ArrayIndex {
            array: Box::new(expr_mapped(*array, f)),
            index: Box::new(expr_mapped(*index, f)),
        },
        ExprV::Cast { ty, e } => ExprV::Cast { ty, e: Box::new(expr_mapped(*e, f)) },
        ExprV::InstanceOf { e, ty } => ExprV::InstanceOf { e: Box::new(expr_mapped(*e, f)), ty },
        ExprV::Un { op, e } => ExprV::Un { op, e: Box::new(expr_mapped(*e, f)) },
        ExprV::Bin { op, l, r, ty } => ExprV::Bin {
            op,
            l: Box::new(expr_mapped(*l, f)),
            r: Box::new(expr_mapped(*r, f)),
            ty,
        },
        ExprV::Cond { c, t, f: other } => ExprV::Cond {
            c: Box::new(expr_mapped(*c, f)),
            t: Box::new(expr_mapped(*t, f)),
            f: Box::new(expr_mapped(*other, f)),
        },
        ExprV::Assign { target, op, value } => ExprV::Assign {
            target: Box::new(expr_mapped(*target, f)),
            op,
            value: Box::new(expr_mapped(*value, f)),
        },
        ExprV::PreIncDec { e, delta, wide } => ExprV::PreIncDec {
            e: Box::new(expr_mapped(*e, f)),
            delta,
            wide,
        },
        ExprV::PostIncDec { e, delta, wide } => ExprV::PostIncDec {
            e: Box::new(expr_mapped(*e, f)),
            delta,
            wide,
        },
        ExprV::Lambda(l) => ExprV::Lambda(Box::new(expr_mapped_captures(*l, f))),
        ExprV::StringConcat(parts) => ExprV::StringConcat(expr_mapped_parts(parts, f)),
        ExprV::Raw(text) => ExprV::Raw(text),
        ExprV::RawT(text, ty) => ExprV::RawT(text, ty),
        ExprV::Invokedynamic {
            name,
            desc,
            args,
            bsm_text,
            bsm_static_args,
        } => ExprV::Invokedynamic {
            name,
            desc,
            args: expr_mapped_exprs(args, f),
            bsm_text,
            bsm_static_args,
        },
        ExprV::AnonNew { cls, base, args, body } => ExprV::AnonNew {
            cls,
            base,
            args: expr_mapped_exprs(args, f),
            body,
        },
    }
}

/// [`expr_mapped`] where there is a value.
pub open spec fn expr_mapped_opt(
    o: Option<Box<ExprV>>,
    f: spec_fn(u32) -> u32,
) -> Option<Box<ExprV>>
    decreases o,
{
    match o {
        Some(x) => Some(Box::new(expr_mapped(*x, f))),
        None => None,
    }
}

/// [`expr_mapped`] where there is a value.
pub open spec fn expr_mapped_oexprs(
    o: Option<Seq<ExprV>>,
    f: spec_fn(u32) -> u32,
) -> Option<Seq<ExprV>>
    decreases o,
{
    match o {
        Some(x) => Some(expr_mapped_exprs(x, f)),
        None => None,
    }
}

/// [`expr_mapped`] inside the captures of a lambda.
pub open spec fn expr_mapped_captures(l: LambdaExprV, f: spec_fn(u32) -> u32) -> LambdaExprV
    decreases l,
{
    LambdaExprV { captures: expr_mapped_exprs(l.captures, f), ..l }
}

/// [`expr_mapped`] over a list.
pub open spec fn expr_mapped_exprs(v: Seq<ExprV>, f: spec_fn(u32) -> u32) -> Seq<ExprV>
    decreases v,
{
    Seq::new(v.len(), |i: int| if 0 <= i < v.len() { expr_mapped(v[i], f) } else { arbitrary() })
}

/// [`expr_mapped`] inside a concatenation piece.
pub open spec fn expr_mapped_part(p: ConcatPartV, f: spec_fn(u32) -> u32) -> ConcatPartV
    decreases p,
{
    match p {
        ConcatPartV::Str(e) => ConcatPartV::Str(expr_mapped(e, f)),
        ConcatPartV::Const(_) => p,
    }
}

/// [`expr_mapped`] over a list.
pub open spec fn expr_mapped_parts(v: Seq<ConcatPartV>, f: spec_fn(u32) -> u32) -> Seq<ConcatPartV>
    decreases v,
{
    Seq::new(
        v.len(),
        |i: int| if 0 <= i < v.len() { expr_mapped_part(v[i], f) } else { arbitrary() },
    )
}

/// [`expr_mapped`] where there is a value.
pub open spec fn expr_mapped_oexpr(o: Option<ExprV>, f: spec_fn(u32) -> u32) -> Option<ExprV>
    decreases o,
{
    match o {
        Some(x) => Some(expr_mapped(x, f)),
        None => None,
    }
}

/// `s` with each variable `v` replaced by `f(v)` and each printed name `n` of a catch
/// clause by `g(n)`.
pub open spec fn stmt_mapped(
    s: StmtV,
    f: spec_fn(u32) -> u32,
    g: spec_fn(Option<Seq<char>>) -> Option<Seq<char>>,
) -> StmtV
    decreases s,
{
    match s {
        StmtV::Block(items) => StmtV::Block(stmt_mapped_seq(items, f, g)),
        StmtV::ExprStmt(e) => StmtV::ExprStmt(expr_mapped(e, f)),
        StmtV::LocalDef { var, init, is_final, force_type } => StmtV::LocalDef {
            var: f(var),
            init: expr_mapped_oexpr(init, f),
            is_final,
            force_type,
        },
        StmtV::Return(e) => StmtV::Return(expr_mapped_oexpr(e, f)),
        StmtV::Throw(e) => StmtV::Throw(expr_mapped(e, f)),
        StmtV::If { cond, then_stmt, else_stmt } => StmtV::If {
            cond: expr_mapped(cond, f),
            then_stmt: Box::new(stmt_mapped(*then_stmt, f, g)),
            else_stmt: stmt_mapped_opt(else_stmt, f, g),
        },
        StmtV::While { cond, body } => StmtV::While {
            cond: expr_mapped(cond, f),
            body: Box::new(stmt_mapped(*body, f, g)),
        },
        StmtV::DoWhile { body, cond } => StmtV::DoWhile {
            body: Box::new(stmt_mapped(*body, f, g)),
            cond: expr_mapped(cond, f),
        },
        StmtV::For { init, cond, update, body } => StmtV::For {
            init: stmt_mapped_seq(init, f, g),
            cond: expr_mapped_oexpr(cond, f),
            update: expr_mapped_exprs(update, f),
            body: Box::new(stmt_mapped(*body, f, g)),
        },
        StmtV::ForEach { var, iterable, is_array, body } => StmtV::ForEach {
            var: f(var),
            iterable: expr_mapped(iterable, f),
            is_array,
            body: Box::new(stmt_mapped(*body, f, g)),
        },
        StmtV::Switch { selector, cases, default, on_string } => StmtV::Switch {
            selector: expr_mapped(selector, f),
            cases: stmt_mapped_cases(cases, f, g),
            default: stmt_mapped_opt(default, f, g),
            on_string,
        },
        StmtV::Try { body, catches, finally } => StmtV::Try {
            body: Box::new(stmt_mapped(*body, f, g)),
            catches: stmt_mapped_catches(catches, f, g),
            finally: stmt_mapped_opt(finally, f, g),
        },
        StmtV::TryWithResources { resources, body, catches, finally } => StmtV::TryWithResources {
            resources: stmt_mapped_seq(resources, f, g),
            body: Box::new(stmt_mapped(*body, f, g)),
            catches: stmt_mapped_catches(catches, f, g),
            finally: stmt_mapped_opt(finally, f, g),
        },
        StmtV::Assert { cond, msg } => StmtV::Assert {
            cond: expr_mapped(cond, f),
            msg: expr_mapped_oexpr(msg, f),
        },
        StmtV::Synchronized { lock, body } => StmtV::Synchronized {
            lock: expr_mapped(lock, f),
            body: Box::new(stmt_mapped(*body, f, g)),
        },
        StmtV::TernaryValue { e } => StmtV::TernaryValue { e: expr_mapped(e, f) },
        StmtV::MonitorEnter(e) => StmtV::MonitorEnter(expr_mapped(e, f)),
        StmtV::MonitorExit(e) => StmtV::MonitorExit(expr_mapped(e, f)),
        StmtV::Label(n) => StmtV::Label(n),
        StmtV::Goto(n) => StmtV::Goto(n),
        StmtV::ClassDecl { name, header, body } => StmtV::ClassDecl { name, header, body },
        StmtV::Labeled { label, body } => StmtV::Labeled {
            label,
            body: Box::new(stmt_mapped(*body, f, g)),
        },
        StmtV::Break(label) => StmtV::Break(label),
        StmtV::Continue(label) => StmtV::Continue(label),
        StmtV::Comment(text) => StmtV::Comment(text),
    }
}

/// [`stmt_mapped`] where there is a value.
pub open spec fn stmt_mapped_opt(
    o: Option<Box<StmtV>>,
    f: spec_fn(u32) -> u32,
    g: spec_fn(Option<Seq<char>>) -> Option<Seq<char>>,
) -> Option<Box<StmtV>>
    decreases o,
{
    match o {
        Some(x) => Some(Box::new(stmt_mapped(*x, f, g))),
        None => None,
    }
}

/// [`stmt_mapped`] over a list.
pub open spec fn stmt_mapped_seq(
    v: Seq<StmtV>,
    f: spec_fn(u32) -> u32,
    g: spec_fn(Option<Seq<char>>) -> Option<Seq<char>>,
) -> Seq<StmtV>
    decreases v,
{
    Seq::new(v.len(), |i: int| if 0 <= i < v.len() { stmt_mapped(v[i], f, g) } else { arbitrary() })
}

/// [`stmt_mapped`] inside a switch arm.
pub open spec fn stmt_mapped_case(
    c: CaseGroupV,
    f: spec_fn(u32) -> u32,
    g: spec_fn(Option<Seq<char>>) -> Option<Seq<char>>,
) -> CaseGroupV
    decreases c,
{
    CaseGroupV { guard: expr_mapped_oexpr(c.guard, f), body: stmt_mapped_seq(c.body, f, g), ..c }
}

/// [`stmt_mapped`] over a list.
pub open spec fn stmt_mapped_cases(
    v: Seq<CaseGroupV>,
    f: spec_fn(u32) -> u32,
    g: spec_fn(Option<Seq<char>>) -> Option<Seq<char>>,
) -> Seq<CaseGroupV>
    decreases v,
{
    Seq::new(
        v.len(),
        |i: int| if 0 <= i < v.len() { stmt_mapped_case(v[i], f, g) } else { arbitrary() },
    )
}

/// [`stmt_mapped`] inside a catch clause.
pub open spec fn stmt_mapped_catch(
    c: CatchV,
    f: spec_fn(u32) -> u32,
    g: spec_fn(Option<Seq<char>>) -> Option<Seq<char>>,
) -> CatchV
    decreases c,
{
    CatchV {
        var: f(c.var),
        var_name: g(c.var_name),
        body: Box::new(stmt_mapped(*c.body, f, g)),
        ..c
    }
}

/// [`stmt_mapped`] over a list.
pub open spec fn stmt_mapped_catches(
    v: Seq<CatchV>,
    f: spec_fn(u32) -> u32,
    g: spec_fn(Option<Seq<char>>) -> Option<Seq<char>>,
) -> Seq<CatchV>
    decreases v,
{
    Seq::new(
        v.len(),
        |i: int| if 0 <= i < v.len() { stmt_mapped_catch(v[i], f, g) } else { arbitrary() },
    )
}

/// No two variables become one.
pub open spec fn keeps_apart(f: spec_fn(u32) -> u32) -> bool {
    forall|a: u32, b: u32| #[trigger] f(a) == #[trigger] f(b) ==> a == b
}

/// Each variable `v` of a list replaced by `f(v)`.
pub open spec fn vars_mapped(seen: Seq<u32>, f: spec_fn(u32) -> u32) -> Seq<u32> {
    Seq::new(seen.len(), |i: int| f(seen[i]))
}

/// Renaming keeps positions.
proof fn lemma_position(seen: Seq<u32>, v: u32, f: spec_fn(u32) -> u32)
    requires
        keeps_apart(f),
    ensures
        position(vars_mapped(seen, f), f(v)) == position(seen, v),
    decreases seen.len(),
{
    if seen.len() > 0 {
        lemma_position(seen.drop_last(), v, f);
        assert(vars_mapped(seen, f).drop_last() =~= vars_mapped(seen.drop_last(), f));
        assert(vars_mapped(seen, f).last() == f(seen.last()));
    }
}

/// Renaming keeps numbers.
proof fn lemma_numbered(v: u32, seen: Seq<u32>, f: spec_fn(u32) -> u32)
    requires
        keeps_apart(f),
    ensures
        numbered(f(v), vars_mapped(seen, f)) == (
            numbered(v, seen).0,
            vars_mapped(numbered(v, seen).1, f),
        ),
{
    lemma_position(seen, v, f);
    assert(vars_mapped(seen.push(v), f) =~= vars_mapped(seen, f).push(f(v)));
}

/// An expression with other variables has the same numbered form.
proof fn lemma_expr(e: ExprV, seen: Seq<u32>, f: spec_fn(u32) -> u32)
    requires
        keeps_apart(f),
    ensures
        expr_normed(expr_mapped(e, f), vars_mapped(seen, f)) == (
            expr_normed(e, seen).0,
            vars_mapped(expr_normed(e, seen).1, f),
        ),
    decreases e,
{
    match e {
        ExprV::Local { var, .. } => {
            lemma_numbered(var, seen, f);
        },
        ExprV::New { args, .. } => {
            lemma_expr_exprs(args, seen, f);
        },
        ExprV::NewArray { dims, init, .. } => {
            lemma_expr_exprs(dims, seen, f);
            let seen1 = expr_normed_exprs(dims, seen).1;
            lemma_expr_oexprs(init, seen1, f);
        },
        ExprV::NewMultiArray { dims, .. } => {
            lemma_expr_exprs(dims, seen, f);
        },
        ExprV::Field { owner, .. } => {
            lemma_expr_opt(owner, seen, f);
        },
        ExprV::Method { owner, args, .. } => {
            lemma_expr_opt(owner, seen, f);
            let seen1 = expr_normed_opt(owner, seen).1;
            lemma_expr_exprs(args, seen1, f);
        },
        ExprV::ArrayIndex { array, index } => {
            lemma_expr(*array, seen, f);
            let seen1 = expr_normed(*array, seen).1;
            lemma_expr(*index, seen1, f);
        },
        ExprV::Cast { e, .. } => {
            lemma_expr(*e, seen, f);
        },
        ExprV::InstanceOf { e, .. } => {
            lemma_expr(*e, seen, f);
        },
        ExprV::Un { e, .. } => {
            lemma_expr(*e, seen, f);
        },
        ExprV::Bin { l, r, .. } => {
            lemma_expr(*l, seen, f);
            let seen1 = expr_normed(*l, seen).1;
            lemma_expr(*r, seen1, f);
        },
        ExprV::Cond { c, t, f: other } => {
            lemma_expr(*c, seen, f);
            let seen1 = expr_normed(*c, seen).1;
            lemma_expr(*t, seen1, f);
            let seen2 = expr_normed(*t, seen1).1;
            lemma_expr(*other, seen2, f);
        },
        ExprV::Assign { target, value, .. } => {
            lemma_expr(*target, seen, f);
            let seen1 = expr_normed(*target, seen).1;
            lemma_expr(*value, seen1, f);
        },
        ExprV::PreIncDec { e, .. } => {
            lemma_expr(*e, seen, f);
        },
        ExprV::PostIncDec { e, .. } => {
            lemma_expr(*e, seen, f);
        },
        ExprV::Lambda(l) => {
            lemma_expr_captures(*l, seen, f);
        },
        ExprV::StringConcat(parts) => {
            lemma_expr_parts(parts, seen, f);
        },
        ExprV::Invokedynamic { args, .. } => {
            lemma_expr_exprs(args, seen, f);
        },
        ExprV::AnonNew { args, .. } => {
            lemma_expr_exprs(args, seen, f);
        },
        _ => {},
    }
}

/// [`lemma_expr`] where there is a value.
proof fn lemma_expr_opt(o: Option<Box<ExprV>>, seen: Seq<u32>, f: spec_fn(u32) -> u32)
    requires
        keeps_apart(f),
    ensures
        expr_normed_opt(expr_mapped_opt(o, f), vars_mapped(seen, f)) == (
            expr_normed_opt(o, seen).0,
            vars_mapped(expr_normed_opt(o, seen).1, f),
        ),
    decreases o,
{
    if let Some(x) = o {
        lemma_expr(*x, seen, f);
    }
}

/// [`lemma_expr`] where there is a value.
proof fn lemma_expr_oexpr(o: Option<ExprV>, seen: Seq<u32>, f: spec_fn(u32) -> u32)
    requires
        keeps_apart(f),
    ensures
        expr_normed_oexpr(expr_mapped_oexpr(o, f), vars_mapped(seen, f)) == (
            expr_normed_oexpr(o, seen).0,
            vars_mapped(expr_normed_oexpr(o, seen).1, f),
        ),
    decreases o,
{
    if let Some(x) = o {
        lemma_expr(x, seen, f);
    }
}

/// [`lemma_expr`] where there is a list.
proof fn lemma_expr_oexprs(o: Option<Seq<ExprV>>, seen: Seq<u32>, f: spec_fn(u32) -> u32)
    requires
        keeps_apart(f),
    ensures
        expr_normed_oexprs(expr_mapped_oexprs(o, f), vars_mapped(seen, f)) == (
            expr_normed_oexprs(o, seen).0,
            vars_mapped(expr_normed_oexprs(o, seen).1, f),
        ),
    decreases o,
{
    if let Some(x) = o {
        lemma_expr_exprs(x, seen, f);
    }
}

/// [`lemma_expr`] inside the captures of a lambda.
proof fn lemma_expr_captures(l: LambdaExprV, seen: Seq<u32>, f: spec_fn(u32) -> u32)
    requires
        keeps_apart(f),
    ensures
        expr_normed_captures(expr_mapped_captures(l, f), vars_mapped(seen, f)) == (
            expr_normed_captures(l, seen).0,
            vars_mapped(expr_normed_captures(l, seen).1, f),
        ),
    decreases l,
{
    lemma_expr_exprs(l.captures, seen, f);
}

/// [`lemma_expr`] over a list.
proof fn lemma_expr_exprs(v: Seq<ExprV>, seen: Seq<u32>, f: spec_fn(u32) -> u32)
    requires
        keeps_apart(f),
    ensures
        expr_normed_exprs(expr_mapped_exprs(v, f), vars_mapped(seen, f)) == (
            expr_normed_exprs(v, seen).0,
            vars_mapped(expr_normed_exprs(v, seen).1, f),
        ),
    decreases v,
{
    let w = expr_mapped_exprs(v, f);
    if v.len() > 0 {
        lemma_expr_exprs(v.drop_last(), seen, f);
        lemma_expr(v.last(), expr_normed_exprs(v.drop_last(), seen).1, f);
        assert(w.drop_last() =~= expr_mapped_exprs(v.drop_last(), f));
    } else {
        assert(w =~= seq![]);
    }
}

/// [`lemma_expr`] inside a concatenation piece.
proof fn lemma_expr_part(p: ConcatPartV, seen: Seq<u32>, f: spec_fn(u32) -> u32)
    requires
        keeps_apart(f),
    ensures
        expr_normed_part(expr_mapped_part(p, f), vars_mapped(seen, f)) == (
            expr_normed_part(p, seen).0,
            vars_mapped(expr_normed_part(p, seen).1, f),
        ),
    decreases p,
{
    if let ConcatPartV::Str(e) = p {
        lemma_expr(e, seen, f);
    }
}

/// [`lemma_expr`] over a list.
proof fn lemma_expr_parts(v: Seq<ConcatPartV>, seen: Seq<u32>, f: spec_fn(u32) -> u32)
    requires
        keeps_apart(f),
    ensures
        expr_normed_parts(expr_mapped_parts(v, f), vars_mapped(seen, f)) == (
            expr_normed_parts(v, seen).0,
            vars_mapped(expr_normed_parts(v, seen).1, f),
        ),
    decreases v,
{
    let w = expr_mapped_parts(v, f);
    if v.len() > 0 {
        lemma_expr_parts(v.drop_last(), seen, f);
        lemma_expr_part(v.last(), expr_normed_parts(v.drop_last(), seen).1, f);
        assert(w.drop_last() =~= expr_mapped_parts(v.drop_last(), f));
    } else {
        assert(w =~= seq![]);
    }
}

/// A statement with other variables has the same numbered form.
#[verifier::spinoff_prover]
proof fn lemma_stmt(
    s: StmtV,
    seen: Seq<u32>,
    f: spec_fn(u32) -> u32,
    g: spec_fn(Option<Seq<char>>) -> Option<Seq<char>>,
)
    requires
        keeps_apart(f),
    ensures
        stmt_normed(stmt_mapped(s, f, g), vars_mapped(seen, f)) == (
            stmt_normed(s, seen).0,
            vars_mapped(stmt_normed(s, seen).1, f),
        ),
    decreases s,
{
    match s {
        StmtV::Block(items) => {
            lemma_stmt_seq(items, seen, f, g);
        },
        StmtV::ExprStmt(e) => {
            lemma_expr(e, seen, f);
        },
        StmtV::LocalDef { var, init, .. } => {
            lemma_numbered(var, seen, f);
            let seen0 = numbered(var, seen).1;
            lemma_expr_oexpr(init, seen0, f);
        },
        StmtV::Return(e) => {
            lemma_expr_oexpr(e, seen, f);
        },
        StmtV::Throw(e) => {
            lemma_expr(e, seen, f);
        },
        StmtV::If { cond, then_stmt, else_stmt } => {
            lemma_expr(cond, seen, f);
            let seen1 = expr_normed(cond, seen).1;
            lemma_stmt(*then_stmt, seen1, f, g);
            let seen2 = stmt_normed(*then_stmt, seen1).1;
            lemma_stmt_opt(else_stmt, seen2, f, g);
        },
        StmtV::While { cond, body } => {
            lemma_expr(cond, seen, f);
            let seen1 = expr_normed(cond, seen).1;
            lemma_stmt(*body, seen1, f, g);
        },
        StmtV::DoWhile { body, cond } => {
            lemma_expr(cond, seen, f);
            let seen1 = expr_normed(cond, seen).1;
            lemma_stmt(*body, seen1, f, g);
        },
        StmtV::For { init, cond, update, body } => {
            lemma_stmt_seq(init, seen, f, g);
            let seen1 = stmt_normed_seq(init, seen).1;
            lemma_expr_oexpr(cond, seen1, f);
            let seen2 = expr_normed_oexpr(cond, seen1).1;
            lemma_expr_exprs(update, seen2, f);
            let seen3 = expr_normed_exprs(update, seen2).1;
            lemma_stmt(*body, seen3, f, g);
        },
        StmtV::ForEach { var, iterable, body, .. } => {
            lemma_numbered(var, seen, f);
            let seen0 = numbered(var, seen).1;
            lemma_expr(iterable, seen0, f);
            let seen1 = expr_normed(iterable, seen0).1;
            lemma_stmt(*body, seen1, f, g);
        },
        StmtV::Switch { selector, cases, default, .. } => {
            lemma_expr(selector, seen, f);
            let seen1 = expr_normed(selector, seen).1;
            lemma_stmt_cases(cases, seen1, f, g);
            let seen2 = stmt_normed_cases(cases, seen1).1;
            lemma_stmt_opt(default, seen2, f, g);
        },
        StmtV::Try { body, catches, finally } => {
            lemma_stmt(*body, seen, f, g);
            let seen1 = stmt_normed(*body, seen).1;
            lemma_stmt_catches(catches, seen1, f, g);
            let seen2 = stmt_normed_catches(catches, seen1).1;
            lemma_stmt_opt(finally, seen2, f, g);
        },
        StmtV::TryWithResources { resources, body, catches, finally } => {
            lemma_stmt_seq(resources, seen, f, g);
            let seen1 = stmt_normed_seq(resources, seen).1;
            lemma_stmt(*body, seen1, f, g);
            let seen2 = stmt_normed(*body, seen1).1;
            lemma_stmt_catches(catches, seen2, f, g);
            let seen3 = stmt_normed_catches(catches, seen2).1;
            lemma_stmt_opt(finally, seen3, f, g);
        },
        StmtV::Assert { cond, msg } => {
            lemma_expr(cond, seen, f);
            let seen1 = expr_normed(cond, seen).1;
            lemma_expr_oexpr(msg, seen1, f);
        },
        StmtV::Synchronized { lock, body } => {
            lemma_expr(lock, seen, f);
            let seen1 = expr_normed(lock, seen).1;
            lemma_stmt(*body, seen1, f, g);
        },
        StmtV::TernaryValue { e } => {
            lemma_expr(e, seen, f);
        },
        StmtV::MonitorEnter(e) => {
            lemma_expr(e, seen, f);
        },
        StmtV::MonitorExit(e) => {
            lemma_expr(e, seen, f);
        },
        StmtV::Labeled { body, .. } => {
            lemma_stmt(*body, seen, f, g);
        },
        _ => {},
    }
}

/// [`lemma_stmt`] where there is a statement.
proof fn lemma_stmt_opt(
    o: Option<Box<StmtV>>,
    seen: Seq<u32>,
    f: spec_fn(u32) -> u32,
    g: spec_fn(Option<Seq<char>>) -> Option<Seq<char>>,
)
    requires
        keeps_apart(f),
    ensures
        stmt_normed_opt(stmt_mapped_opt(o, f, g), vars_mapped(seen, f)) == (
            stmt_normed_opt(o, seen).0,
            vars_mapped(stmt_normed_opt(o, seen).1, f),
        ),
    decreases o,
{
    if let Some(x) = o {
        lemma_stmt(*x, seen, f, g);
    }
}

/// [`lemma_stmt`] over a list.
proof fn lemma_stmt_seq(
    v: Seq<StmtV>,
    seen: Seq<u32>,
    f: spec_fn(u32) -> u32,
    g: spec_fn(Option<Seq<char>>) -> Option<Seq<char>>,
)
    requires
        keeps_apart(f),
    ensures
        stmt_normed_seq(stmt_mapped_seq(v, f, g), vars_mapped(seen, f)) == (
            stmt_normed_seq(v, seen).0,
            vars_mapped(stmt_normed_seq(v, seen).1, f),
        ),
    decreases v,
{
    let w = stmt_mapped_seq(v, f, g);
    if v.len() > 0 {
        lemma_stmt_seq(v.drop_last(), seen, f, g);
        lemma_stmt(v.last(), stmt_normed_seq(v.drop_last(), seen).1, f, g);
        assert(w.drop_last() =~= stmt_mapped_seq(v.drop_last(), f, g));
    } else {
        assert(w =~= seq![]);
    }
}

/// [`lemma_stmt`] over switch arms.
proof fn lemma_stmt_cases(
    v: Seq<CaseGroupV>,
    seen: Seq<u32>,
    f: spec_fn(u32) -> u32,
    g: spec_fn(Option<Seq<char>>) -> Option<Seq<char>>,
)
    requires
        keeps_apart(f),
    ensures
        stmt_normed_cases(stmt_mapped_cases(v, f, g), vars_mapped(seen, f)) == (
            stmt_normed_cases(v, seen).0,
            vars_mapped(stmt_normed_cases(v, seen).1, f),
        ),
    decreases v,
{
    let w = stmt_mapped_cases(v, f, g);
    if v.len() > 0 {
        lemma_stmt_cases(v.drop_last(), seen, f, g);
        lemma_stmt_case(v.last(), stmt_normed_cases(v.drop_last(), seen).1, f, g);
        assert(w.drop_last() =~= stmt_mapped_cases(v.drop_last(), f, g));
    } else {
        assert(w =~= seq![]);
    }
}

/// [`lemma_stmt`] over catch clauses.
proof fn lemma_stmt_catches(
    v: Seq<CatchV>,
    seen: Seq<u32>,
    f: spec_fn(u32) -> u32,
    g: spec_fn(Option<Seq<char>>) -> Option<Seq<char>>,
)
    requires
        keeps_apart(f),
    ensures
        stmt_normed_catches(stmt_mapped_catches(v, f, g), vars_mapped(seen, f)) == (
            stmt_normed_catches(v, seen).0,
            vars_mapped(stmt_normed_catches(v, seen).1, f),
        ),
    decreases v,
{
    let w = stmt_mapped_catches(v, f, g);
    if v.len() > 0 {
        lemma_stmt_catches(v.drop_last(), seen, f, g);
        lemma_stmt_catch(v.last(), stmt_normed_catches(v.drop_last(), seen).1, f, g);
        assert(w.drop_last() =~= stmt_mapped_catches(v.drop_last(), f, g));
    } else {
        assert(w =~= seq![]);
    }
}

/// [`lemma_stmt`] inside a switch arm.
proof fn lemma_stmt_case(
    c: CaseGroupV,
    seen: Seq<u32>,
    f: spec_fn(u32) -> u32,
    g: spec_fn(Option<Seq<char>>) -> Option<Seq<char>>,
)
    requires
        keeps_apart(f),
    ensures
        stmt_normed_case(stmt_mapped_case(c, f, g), vars_mapped(seen, f)) == (
            stmt_normed_case(c, seen).0,
            vars_mapped(stmt_normed_case(c, seen).1, f),
        ),
    decreases c,
{
    lemma_expr_oexpr(c.guard, seen, f);
    lemma_stmt_seq(c.body, expr_normed_oexpr(c.guard, seen).1, f, g);
}

/// [`lemma_stmt`] inside a catch clause.
proof fn lemma_stmt_catch(
    c: CatchV,
    seen: Seq<u32>,
    f: spec_fn(u32) -> u32,
    g: spec_fn(Option<Seq<char>>) -> Option<Seq<char>>,
)
    requires
        keeps_apart(f),
    ensures
        stmt_normed_catch(stmt_mapped_catch(c, f, g), vars_mapped(seen, f)) == (
            stmt_normed_catch(c, seen).0,
            vars_mapped(stmt_normed_catch(c, seen).1, f),
        ),
    decreases c,
{
    lemma_numbered(c.var, seen, f);
    lemma_stmt(*c.body, numbered(c.var, seen).1, f, g);
}

/// Statements that differ only in which variables they use, one for one, and in the
/// printed names of catch clauses have the same numbered form, with as many numbers.
pub proof fn law_numbered_form_ignores_names(
    s: StmtV,
    f: spec_fn(u32) -> u32,
    g: spec_fn(Option<Seq<char>>) -> Option<Seq<char>>,
)
    requires
        keeps_apart(f),
    ensures
        stmt_normed(stmt_mapped(s, f, g), seq![]).0 == stmt_normed(s, seq![]).0,
        stmt_normed(stmt_mapped(s, f, g), seq![]).1.len() == stmt_normed(s, seq![]).1.len(),
{
    lemma_stmt(s, seq![], f, g);
    assert(vars_mapped(seq![], f) =~= seq![]);
}

} // verus!
