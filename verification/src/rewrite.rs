//! Renaming of one variable, and the first statement of a body.
use crate::assigns::{stmt_assigns, stmt_assigns_var};
use crate::expr::{
    as_local, concat_parts, exprs, is_local, opt_box, opt_expr, opt_exprs, ConcatPart, ConcatPartV,
    Expr, ExprV, LambdaExpr, LambdaExprV,
};
use crate::sizes::{
    case_size, cases_size, catch_size, catches_size, lemma_stmts_size_first, opt_stmt_size,
    stmt_size, stmts_size,
};
use crate::stmt::{
    case_groups, catch_list, empty_block, is_empty_block, no_stmt, opt_stmt, stmts, CaseGroup,
    CaseGroupV, Catch, CatchV, Stmt, StmtV,
};
use crate::types::{object, JTypeV, TypeRef, TypeRefV};
use vstd::prelude::*;

verus! {

/// The type `java/lang/Throwable`.
pub open spec fn throwable() -> TypeRefV {
    TypeRefV::J(JTypeV::Object("java/lang/Throwable"@))
}

/// The type `java/lang/Throwable`.
pub fn throwable_type() -> (r: TypeRef)
    ensures
        r@ == throwable(),
{
    TypeRef::J(object("java/lang/Throwable"))
}

/// `v` with `from` renamed to `to`.
pub open spec fn renamed(v: u32, from: u32, to: u32) -> u32 {
    if v == from {
        to
    } else {
        v
    }
}

/// `e` with local `from` renamed to `to`, of type `Throwable`.
pub open spec fn var_renamed(e: ExprV, from: u32, to: u32) -> ExprV
    decreases e,
{
    match e {
        ExprV::Const(c) => ExprV::Const(c),
        ExprV::Local { var, ty } => if var == from {
            ExprV::Local { var: to, ty: throwable() }
        } else {
            e
        },
        ExprV::This => ExprV::This,
        ExprV::New { cls, ty, args, raw } => ExprV::New {
            cls,
            ty,
            args: var_renamed_exprs(args, from, to),
            raw,
        },
        ExprV::NewArray { elem, dims, trailing_dims, init } => ExprV::NewArray {
            elem,
            dims: var_renamed_exprs(dims, from, to),
            trailing_dims,
            init: var_renamed_oexprs(init, from, to),
        },
        ExprV::Field { owner, cls, name, ty, is_static } => ExprV::Field {
            owner: var_renamed_opt(owner, from, to),
            cls,
            name,
            ty,
            is_static,
        },
        ExprV::Method {
            owner,
            cls,
            name,
            desc,
            args,
            is_static,
            is_interface,
            is_special,
            is_super,
            is_dynamic,
            type_args,
        } => ExprV::Method {
            owner: var_renamed_opt(owner, from, to),
            cls,
            name,
            desc,
            args: var_renamed_exprs(args, from, to),
            is_static,
            is_interface,
            is_special,
            is_super,
            is_dynamic,
            type_args,
        },
        ExprV::ArrayIndex { array, index } => ExprV::ArrayIndex {
            array: Box::new(var_renamed(*array, from, to)),
            index: Box::new(var_renamed(*index, from, to)),
        },
        ExprV::Cast { ty, e } => ExprV::Cast { ty, e: Box::new(var_renamed(*e, from, to)) },
        ExprV::InstanceOf { e, ty } => ExprV::InstanceOf {
            e: Box::new(var_renamed(*e, from, to)),
            ty,
        },
        ExprV::Un { op, e } => ExprV::Un { op, e: Box::new(var_renamed(*e, from, to)) },
        ExprV::Bin { op, l, r, ty } => ExprV::Bin {
            op,
            l: Box::new(var_renamed(*l, from, to)),
            r: Box::new(var_renamed(*r, from, to)),
            ty,
        },
        ExprV::Cond { c, t, f } => ExprV::Cond {
            c: Box::new(var_renamed(*c, from, to)),
            t: Box::new(var_renamed(*t, from, to)),
            f: Box::new(var_renamed(*f, from, to)),
        },
        ExprV::Assign { target, op, value } => ExprV::Assign {
            target: Box::new(var_renamed(*target, from, to)),
            op,
            value: Box::new(var_renamed(*value, from, to)),
        },
        ExprV::PreIncDec { e, delta, wide } => ExprV::PreIncDec {
            e: Box::new(var_renamed(*e, from, to)),
            delta,
            wide,
        },
        ExprV::PostIncDec { e, delta, wide } => ExprV::PostIncDec {
            e: Box::new(var_renamed(*e, from, to)),
            delta,
            wide,
        },
        ExprV::Lambda(l) => ExprV::Lambda(Box::new(var_renamed_captures(*l, from, to))),
        ExprV::StringConcat(parts) => ExprV::StringConcat(var_renamed_parts(parts, from, to)),
        ExprV::Raw(text) => ExprV::Raw(text),
        ExprV::RawT(text, ty) => ExprV::RawT(text, ty),
        ExprV::Invokedynamic {
            name,
            desc,
            args,
            bsm_text,
            bsm_static_args,
        } => ExprV::Invokedynamic {
            name,
            desc,
            args: var_renamed_exprs(args, from, to),
            bsm_text,
            bsm_static_args,
        },
        ExprV::AnonNew { cls, base, args, body } => ExprV::AnonNew {
            cls,
            base,
            args: var_renamed_exprs(args, from, to),
            body,
        },
        ExprV::NewMultiArray { ty, dims } => ExprV::NewMultiArray {
            ty,
            dims: var_renamed_exprs(dims, from, to),
        },
        _ => e,
    }
}

/// [`var_renamed`] where there is a value.
pub open spec fn var_renamed_opt(o: Option<Box<ExprV>>, from: u32, to: u32) -> Option<Box<ExprV>>
    decreases o,
{
    match o {
        Some(x) => Some(Box::new(var_renamed(*x, from, to))),
        None => None,
    }
}

/// [`var_renamed`] where there is a value.
pub open spec fn var_renamed_oexprs(o: Option<Seq<ExprV>>, from: u32, to: u32) -> Option<Seq<ExprV>>
    decreases o,
{
    match o {
        Some(x) => Some(var_renamed_exprs(x, from, to)),
        None => None,
    }
}

/// [`var_renamed`] inside the captures of a lambda.
pub open spec fn var_renamed_captures(l: LambdaExprV, from: u32, to: u32) -> LambdaExprV
    decreases l,
{
    LambdaExprV { captures: var_renamed_exprs(l.captures, from, to), ..l }
}

/// [`var_renamed`] over a list.
pub open spec fn var_renamed_exprs(v: Seq<ExprV>, from: u32, to: u32) -> Seq<ExprV>
    decreases v,
{
    Seq::new(
        v.len(),
        |i: int| if 0 <= i < v.len() { var_renamed(v[i], from, to) } else { arbitrary() },
    )
}

/// [`var_renamed`] inside a concatenation piece.
pub open spec fn var_renamed_part(p: ConcatPartV, from: u32, to: u32) -> ConcatPartV
    decreases p,
{
    match p {
        ConcatPartV::Str(e) => ConcatPartV::Str(var_renamed(e, from, to)),
        ConcatPartV::Const(_) => p,
    }
}

/// [`var_renamed`] over a list.
pub open spec fn var_renamed_parts(v: Seq<ConcatPartV>, from: u32, to: u32) -> Seq<ConcatPartV>
    decreases v,
{
    Seq::new(
        v.len(),
        |i: int| if 0 <= i < v.len() { var_renamed_part(v[i], from, to) } else { arbitrary() },
    )
}

/// [`var_renamed`] where there is a value.
pub open spec fn var_renamed_oexpr(o: Option<ExprV>, from: u32, to: u32) -> Option<ExprV>
    decreases o,
{
    match o {
        Some(x) => Some(var_renamed(x, from, to)),
        None => None,
    }
}

/// Renames local `from` to `to` inside `e`; renamed accesses have type `Throwable`.
pub fn rw_expr(e: &mut Expr, from: u32, to: u32)
    ensures
        final(e)@ == var_renamed(old(e)@, from, to),
    decreases *old(e),
{
    match e {
        Expr::Const(_) => {  },
        Expr::Local { var, ty } => { if *var == from { *var = to; *ty = throwable_type(); } },
        Expr::This => {  },
        Expr::New { args, .. } => { rw_expr_exprs(args, from, to); },
        Expr::NewArray { dims, init, .. } => {
            rw_expr_exprs(dims, from, to);
            rw_expr_oexprs(init, from, to);
        },
        Expr::Field { owner, .. } => { rw_expr_opt(owner, from, to); },
        Expr::Method { owner, args, .. } => {
            rw_expr_opt(owner, from, to);
            rw_expr_exprs(args, from, to);
        },
        Expr::ArrayIndex { array, index } => {
            rw_expr(array, from, to);
            rw_expr(index, from, to);
        },
        Expr::Cast { e, .. } => { rw_expr(e, from, to); },
        Expr::InstanceOf { e, .. } => { rw_expr(e, from, to); },
        Expr::Un { e, .. } => { rw_expr(e, from, to); },
        Expr::Bin { l, r, .. } => { rw_expr(l, from, to); rw_expr(r, from, to); },
        Expr::Cond { c, t, f } => {
            rw_expr(c, from, to);
            rw_expr(t, from, to);
            rw_expr(f, from, to);
        },
        Expr::Assign { target, value, .. } => {
            rw_expr(target, from, to);
            rw_expr(value, from, to);
        },
        Expr::PreIncDec { e, .. } => { rw_expr(e, from, to); },
        Expr::PostIncDec { e, .. } => { rw_expr(e, from, to); },
        Expr::Lambda(l) => { rw_expr_captures(l, from, to); },
        Expr::StringConcat(parts) => { rw_expr_parts(parts, from, to); },
        Expr::Raw(_) => {  },
        Expr::RawT(_, _) => {  },
        Expr::Invokedynamic { args, .. } => { rw_expr_exprs(args, from, to); },
        Expr::AnonNew { args, .. } => { rw_expr_exprs(args, from, to); },
        Expr::NewMultiArray { dims, .. } => { rw_expr_exprs(dims, from, to); },
        _ => {},
    }
}

/// `rw_expr` where there is a value.
pub fn rw_expr_opt(o: &mut Option<Box<Expr>>, from: u32, to: u32)
    ensures
        opt_box(*final(o)) == var_renamed_opt(opt_box(*old(o)), from, to),
    decreases *old(o),
{
    if let Some(x) = o {
        rw_expr(x, from, to);
    }
}

/// `rw_expr` where there is a value.
pub fn rw_expr_oexprs(o: &mut Option<Vec<Expr>>, from: u32, to: u32)
    ensures
        opt_exprs(*final(o)) == var_renamed_oexprs(opt_exprs(*old(o)), from, to),
    decreases *old(o),
{
    if let Some(x) = o {
        rw_expr_exprs(x, from, to);
    }
}

/// `rw_expr` inside the captures of a lambda.
pub fn rw_expr_captures(l: &mut LambdaExpr, from: u32, to: u32)
    ensures
        final(l)@ == var_renamed_captures(old(l)@, from, to),
    decreases *old(l),
{
    rw_expr_exprs(&mut l.captures, from, to);
}

/// `rw_expr` over a list.
#[verifier::loop_isolation(false)]
pub fn rw_expr_exprs(v: &mut Vec<Expr>, from: u32, to: u32)
    ensures
        exprs(final(v)@) == var_renamed_exprs(exprs(old(v)@), from, to),
    decreases *old(v),
{
    let mut i: usize = 0;
    while i < v.len()
        invariant
            i <= v.len(),
            v.len() == old(v).len(),
            forall|j: int| 0 <= j < i ==> (#[trigger] v@[j])@ == var_renamed(old(v)@[j]@, from, to),
            forall|j: int| i <= j < v.len() ==> #[trigger] v@[j] == old(v)@[j],
        decreases v.len() - i,
    {
        assert(decreases_to!(*old(v) => v@[i as int]));
        rw_expr(&mut v[i], from, to);
        i += 1;
    }
    assert(exprs(v@) =~= var_renamed_exprs(exprs(old(v)@), from, to));
}

/// `rw_expr` inside a concatenation piece.
pub fn rw_expr_part(p: &mut ConcatPart, from: u32, to: u32)
    ensures
        final(p)@ == var_renamed_part(old(p)@, from, to),
    decreases *old(p),
{
    match p {
        ConcatPart::Str(e) => rw_expr(e, from, to),
        ConcatPart::Const(_) => {},
    }
}

/// `rw_expr` over a list.
#[verifier::loop_isolation(false)]
pub fn rw_expr_parts(v: &mut Vec<ConcatPart>, from: u32, to: u32)
    ensures
        concat_parts(final(v)@) == var_renamed_parts(concat_parts(old(v)@), from, to),
    decreases *old(v),
{
    let mut i: usize = 0;
    while i < v.len()
        invariant
            i <= v.len(),
            v.len() == old(v).len(),
            forall|j: int|
                0 <= j < i ==> (#[trigger] v@[j])@ == var_renamed_part(old(v)@[j]@, from, to),
            forall|j: int| i <= j < v.len() ==> #[trigger] v@[j] == old(v)@[j],
        decreases v.len() - i,
    {
        assert(decreases_to!(*old(v) => v@[i as int]));
        rw_expr_part(&mut v[i], from, to);
        i += 1;
    }
    assert(concat_parts(v@) =~= var_renamed_parts(concat_parts(old(v)@), from, to));
}

/// `rw_expr` where there is a value.
pub fn rw_expr_oexpr(o: &mut Option<Expr>, from: u32, to: u32)
    ensures
        opt_expr(*final(o)) == var_renamed_oexpr(opt_expr(*old(o)), from, to),
    decreases *old(o),
{
    if let Some(x) = o {
        rw_expr(x, from, to);
    }
}

/// `s` with variable `from` renamed to `to`, declarations included.
pub open spec fn stmt_var_renamed(s: StmtV, from: u32, to: u32) -> StmtV
    decreases s,
{
    match s {
        StmtV::Block(items) => StmtV::Block(stmt_var_renamed_seq(items, from, to)),
        StmtV::ExprStmt(e) => StmtV::ExprStmt(var_renamed(e, from, to)),
        StmtV::LocalDef { var, init, is_final, force_type } => StmtV::LocalDef {
            var: renamed(var, from, to),
            init: var_renamed_oexpr(init, from, to),
            is_final,
            force_type,
        },
        StmtV::Return(e) => StmtV::Return(var_renamed_oexpr(e, from, to)),
        StmtV::Throw(e) => StmtV::Throw(var_renamed(e, from, to)),
        StmtV::If { cond, then_stmt, else_stmt } => StmtV::If {
            cond: var_renamed(cond, from, to),
            then_stmt: Box::new(stmt_var_renamed(*then_stmt, from, to)),
            else_stmt: stmt_var_renamed_opt(else_stmt, from, to),
        },
        StmtV::While { cond, body } => StmtV::While {
            cond: var_renamed(cond, from, to),
            body: Box::new(stmt_var_renamed(*body, from, to)),
        },
        StmtV::DoWhile { body, cond } => StmtV::DoWhile {
            body: Box::new(stmt_var_renamed(*body, from, to)),
            cond: var_renamed(cond, from, to),
        },
        StmtV::For { init, cond, update, body } => StmtV::For {
            init: stmt_var_renamed_seq(init, from, to),
            cond: var_renamed_oexpr(cond, from, to),
            update: var_renamed_exprs(update, from, to),
            body: Box::new(stmt_var_renamed(*body, from, to)),
        },
        StmtV::ForEach { var, iterable, is_array, body } => StmtV::ForEach {
            var: renamed(var, from, to),
            iterable: var_renamed(iterable, from, to),
            is_array,
            body: Box::new(stmt_var_renamed(*body, from, to)),
        },
        StmtV::Switch { selector, cases, default, on_string } => StmtV::Switch {
            selector: var_renamed(selector, from, to),
            cases: stmt_var_renamed_cases(cases, from, to),
            default: stmt_var_renamed_opt(default, from, to),
            on_string,
        },
        StmtV::Try { body, catches, finally } => StmtV::Try {
            body: Box::new(stmt_var_renamed(*body, from, to)),
            catches: stmt_var_renamed_catches(catches, from, to),
            finally: stmt_var_renamed_opt(finally, from, to),
        },
        StmtV::TryWithResources { resources, body, catches, finally } => StmtV::TryWithResources {
            resources: stmt_var_renamed_seq(resources, from, to),
            body: Box::new(stmt_var_renamed(*body, from, to)),
            catches: stmt_var_renamed_catches(catches, from, to),
            finally: stmt_var_renamed_opt(finally, from, to),
        },
        StmtV::Synchronized { lock, body } => StmtV::Synchronized {
            lock: var_renamed(lock, from, to),
            body: Box::new(stmt_var_renamed(*body, from, to)),
        },
        StmtV::MonitorEnter(e) => StmtV::MonitorEnter(var_renamed(e, from, to)),
        StmtV::MonitorExit(e) => StmtV::MonitorExit(var_renamed(e, from, to)),
        StmtV::Label(n) => StmtV::Label(n),
        StmtV::Goto(n) => StmtV::Goto(n),
        StmtV::ClassDecl { name, header, body } => StmtV::ClassDecl { name, header, body },
        StmtV::Labeled { label, body } => StmtV::Labeled {
            label,
            body: Box::new(stmt_var_renamed(*body, from, to)),
        },
        StmtV::Break(label) => StmtV::Break(label),
        StmtV::Continue(label) => StmtV::Continue(label),
        StmtV::Comment(text) => StmtV::Comment(text),
        StmtV::Assert { cond, msg } => StmtV::Assert {
            cond: var_renamed(cond, from, to),
            msg: var_renamed_oexpr(msg, from, to),
        },
        StmtV::TernaryValue { e } => StmtV::TernaryValue { e: var_renamed(e, from, to) },
        _ => s,
    }
}

/// [`stmt_var_renamed`] where there is a value.
pub open spec fn stmt_var_renamed_opt(
    o: Option<Box<StmtV>>,
    from: u32,
    to: u32,
) -> Option<Box<StmtV>>
    decreases o,
{
    match o {
        Some(x) => Some(Box::new(stmt_var_renamed(*x, from, to))),
        None => None,
    }
}

/// [`stmt_var_renamed`] over a list.
pub open spec fn stmt_var_renamed_seq(v: Seq<StmtV>, from: u32, to: u32) -> Seq<StmtV>
    decreases v,
{
    Seq::new(
        v.len(),
        |i: int| if 0 <= i < v.len() { stmt_var_renamed(v[i], from, to) } else { arbitrary() },
    )
}

/// [`stmt_var_renamed`] inside a switch arm.
pub open spec fn stmt_var_renamed_case(c: CaseGroupV, from: u32, to: u32) -> CaseGroupV
    decreases c,
{
    CaseGroupV {
        guard: var_renamed_oexpr(c.guard, from, to),
        body: stmt_var_renamed_seq(c.body, from, to),
        ..c
    }
}

/// [`stmt_var_renamed`] over a list.
pub open spec fn stmt_var_renamed_cases(v: Seq<CaseGroupV>, from: u32, to: u32) -> Seq<CaseGroupV>
    decreases v,
{
    Seq::new(
        v.len(),
        |i: int| if 0 <= i < v.len() { stmt_var_renamed_case(v[i], from, to) } else { arbitrary() },
    )
}

/// [`stmt_var_renamed`] inside a catch clause.
pub open spec fn stmt_var_renamed_catch(c: CatchV, from: u32, to: u32) -> CatchV
    decreases c,
{
    CatchV {
        var: renamed(c.var, from, to),
        body: Box::new(stmt_var_renamed(*c.body, from, to)),
        ..c
    }
}

/// [`stmt_var_renamed`] over a list.
pub open spec fn stmt_var_renamed_catches(v: Seq<CatchV>, from: u32, to: u32) -> Seq<CatchV>
    decreases v,
{
    Seq::new(
        v.len(),
        |i: int| if 0 <= i < v.len() { stmt_var_renamed_catch(v[i], from, to) } else {
            arbitrary()
        },
    )
}

/// Renames variable `from` to `to` everywhere in `s`, declarations included.
pub fn rewrite_var(s: &mut Stmt, from: u32, to: u32)
    ensures
        final(s)@ == stmt_var_renamed(old(s)@, from, to),
    decreases *old(s),
{
    match s {
        Stmt::Block(items) => { rewrite_var_vec(items, from, to); },
        Stmt::ExprStmt(e) => { rw_expr(e, from, to); },
        Stmt::LocalDef { var, init, .. } => {
            if *var == from { *var = to; }
            rw_expr_oexpr(init, from, to);
        },
        Stmt::Return(e) => { rw_expr_oexpr(e, from, to); },
        Stmt::Throw(e) => { rw_expr(e, from, to); },
        Stmt::If { cond, then_stmt, else_stmt } => {
            rw_expr(cond, from, to);
            rewrite_var(then_stmt, from, to);
            rewrite_var_opt(else_stmt, from, to);
        },
        Stmt::While { cond, body } => { rw_expr(cond, from, to); rewrite_var(body, from, to); },
        Stmt::DoWhile { body, cond } => { rewrite_var(body, from, to); rw_expr(cond, from, to); },
        Stmt::For { init, cond, update, body } => {
            rewrite_var_vec(init, from, to);
            rw_expr_oexpr(cond, from, to);
            rw_expr_exprs(update, from, to);
            rewrite_var(body, from, to);
        },
        Stmt::ForEach { var, iterable, body, .. } => {
            if *var == from { *var = to; }
            rw_expr(iterable, from, to);
            rewrite_var(body, from, to);
        },
        Stmt::Switch { selector, cases, default, .. } => {
            rw_expr(selector, from, to);
            rewrite_var_cases(cases, from, to);
            rewrite_var_opt(default, from, to);
        },
        Stmt::Try { body, catches, finally } => {
            rewrite_var(body, from, to);
            rewrite_var_catches(catches, from, to);
            rewrite_var_opt(finally, from, to);
        },
        Stmt::TryWithResources { resources, body, catches, finally } => {
            rewrite_var_vec(resources, from, to);
            rewrite_var(body, from, to);
            rewrite_var_catches(catches, from, to);
            rewrite_var_opt(finally, from, to);
        },
        Stmt::Synchronized { lock, body } => {
            rw_expr(lock, from, to);
            rewrite_var(body, from, to);
        },
        Stmt::MonitorEnter(e) => { rw_expr(e, from, to); },
        Stmt::MonitorExit(e) => { rw_expr(e, from, to); },
        Stmt::Label(_) => {  },
        Stmt::Goto(_) => {  },
        Stmt::ClassDecl { .. } => {  },
        Stmt::Labeled { body, .. } => { rewrite_var(body, from, to); },
        Stmt::Break(_) => {  },
        Stmt::Continue(_) => {  },
        Stmt::Comment(_) => {  },
        Stmt::Assert { cond, msg } => { rw_expr(cond, from, to); rw_expr_oexpr(msg, from, to); },
        Stmt::TernaryValue { e } => { rw_expr(e, from, to); },
        _ => {},
    }
}

/// `rewrite_var` where there is a value.
pub fn rewrite_var_opt(o: &mut Option<Box<Stmt>>, from: u32, to: u32)
    ensures
        opt_stmt(*final(o)) == stmt_var_renamed_opt(opt_stmt(*old(o)), from, to),
    decreases *old(o),
{
    if let Some(x) = o {
        rewrite_var(x, from, to);
    }
}

/// `rewrite_var` over a list.
#[verifier::loop_isolation(false)]
pub fn rewrite_var_vec(v: &mut Vec<Stmt>, from: u32, to: u32)
    ensures
        stmts(final(v)@) == stmt_var_renamed_seq(stmts(old(v)@), from, to),
    decreases *old(v),
{
    let mut i: usize = 0;
    while i < v.len()
        invariant
            i <= v.len(),
            v.len() == old(v).len(),
            forall|j: int|
                0 <= j < i ==> (#[trigger] v@[j])@ == stmt_var_renamed(old(v)@[j]@, from, to),
            forall|j: int| i <= j < v.len() ==> #[trigger] v@[j] == old(v)@[j],
        decreases v.len() - i,
    {
        assert(decreases_to!(*old(v) => v@[i as int]));
        rewrite_var(&mut v[i], from, to);
        i += 1;
    }
    assert(stmts(v@) =~= stmt_var_renamed_seq(stmts(old(v)@), from, to));
}

/// `rewrite_var` inside a switch arm.
pub fn rewrite_var_case(c: &mut CaseGroup, from: u32, to: u32)
    ensures
        final(c)@ == stmt_var_renamed_case(old(c)@, from, to),
    decreases *old(c),
{
    rw_expr_oexpr(&mut c.guard, from, to);
    rewrite_var_vec(&mut c.body, from, to);
}

/// `rewrite_var` over a list.
#[verifier::loop_isolation(false)]
pub fn rewrite_var_cases(v: &mut Vec<CaseGroup>, from: u32, to: u32)
    ensures
        case_groups(final(v)@) == stmt_var_renamed_cases(case_groups(old(v)@), from, to),
    decreases *old(v),
{
    let mut i: usize = 0;
    while i < v.len()
        invariant
            i <= v.len(),
            v.len() == old(v).len(),
            forall|j: int|
                0 <= j < i ==> (#[trigger] v@[j])@ == stmt_var_renamed_case(old(v)@[j]@, from, to),
            forall|j: int| i <= j < v.len() ==> #[trigger] v@[j] == old(v)@[j],
        decreases v.len() - i,
    {
        assert(decreases_to!(*old(v) => v@[i as int]));
        rewrite_var_case(&mut v[i], from, to);
        i += 1;
    }
    assert(case_groups(v@) =~= stmt_var_renamed_cases(case_groups(old(v)@), from, to));
}

/// `rewrite_var` inside a catch clause.
pub fn rewrite_var_catch(c: &mut Catch, from: u32, to: u32)
    ensures
        final(c)@ == stmt_var_renamed_catch(old(c)@, from, to),
    decreases *old(c),
{
    if c.var == from {
        c.var = to;
    }
    rewrite_var(&mut c.body, from, to);
}

/// `rewrite_var` over a list.
#[verifier::loop_isolation(false)]
pub fn rewrite_var_catches(v: &mut Vec<Catch>, from: u32, to: u32)
    ensures
        catch_list(final(v)@) == stmt_var_renamed_catches(catch_list(old(v)@), from, to),
    decreases *old(v),
{
    let mut i: usize = 0;
    while i < v.len()
        invariant
            i <= v.len(),
            v.len() == old(v).len(),
            forall|j: int|
                0 <= j < i ==> (#[trigger] v@[j])@ == stmt_var_renamed_catch(old(v)@[j]@, from, to),
            forall|j: int| i <= j < v.len() ==> #[trigger] v@[j] == old(v)@[j],
        decreases v.len() - i,
    {
        assert(decreases_to!(*old(v) => v@[i as int]));
        rewrite_var_catch(&mut v[i], from, to);
        i += 1;
    }
    assert(catch_list(v@) =~= stmt_var_renamed_catches(catch_list(old(v)@), from, to));
}

/// Renaming keeps the size.
pub proof fn lemma_renamed_size(s: StmtV, from: u32, to: u32)
    ensures
        stmt_size(stmt_var_renamed(s, from, to)) == stmt_size(s),
    decreases s,
{
    match s {
        StmtV::Block(items) => { lemma_renamed_size_seq(items, from, to);  },
        StmtV::If { then_stmt, else_stmt, .. } => {
            lemma_renamed_size(*then_stmt, from, to);
            lemma_renamed_size_opt(else_stmt, from, to);
        },
        StmtV::While { body, .. } => { lemma_renamed_size(*body, from, to);  },
        StmtV::DoWhile { body, .. } => { lemma_renamed_size(*body, from, to);  },
        StmtV::For { init, body, .. } => {
            lemma_renamed_size_seq(init, from, to);
            lemma_renamed_size(*body, from, to);
        },
        StmtV::ForEach { body, .. } => { lemma_renamed_size(*body, from, to);  },
        StmtV::Switch { cases, default, .. } => {
            lemma_renamed_size_cases(cases, from, to);
            lemma_renamed_size_opt(default, from, to);
        },
        StmtV::Try { body, catches, finally } => {
            lemma_renamed_size(*body, from, to);
            lemma_renamed_size_catches(catches, from, to);
            lemma_renamed_size_opt(finally, from, to);
        },
        StmtV::TryWithResources { resources, body, catches, finally } => {
            lemma_renamed_size_seq(resources, from, to);
            lemma_renamed_size(*body, from, to);
            lemma_renamed_size_catches(catches, from, to);
            lemma_renamed_size_opt(finally, from, to);
        },
        StmtV::Synchronized { body, .. } => { lemma_renamed_size(*body, from, to);  },
        StmtV::Labeled { body, .. } => { lemma_renamed_size(*body, from, to);  },
        _ => {},
    }
}

/// [`lemma_renamed_size`] where there is a statement.
pub proof fn lemma_renamed_size_opt(o: Option<Box<StmtV>>, from: u32, to: u32)
    ensures
        opt_stmt_size(stmt_var_renamed_opt(o, from, to)) == opt_stmt_size(o),
    decreases o,
{
    if let Some(x) = o {
        lemma_renamed_size(*x, from, to);
    }
}

/// [`lemma_renamed_size`] over a list.
pub proof fn lemma_renamed_size_seq(v: Seq<StmtV>, from: u32, to: u32)
    ensures
        stmts_size(stmt_var_renamed_seq(v, from, to)) == stmts_size(v),
    decreases v,
{
    if v.len() > 0 {
        lemma_renamed_size_seq(v.drop_last(), from, to);
        lemma_renamed_size(v.last(), from, to);
        assert(
            stmt_var_renamed_seq(v, from, to).drop_last() =~= stmt_var_renamed_seq(
                v.drop_last(),
                from,
                to,
            )
        );
        assert(stmt_var_renamed_seq(v, from, to).last() == stmt_var_renamed(v.last(), from, to));
    }
}

/// [`lemma_renamed_size`] over switch arms.
pub proof fn lemma_renamed_size_cases(v: Seq<CaseGroupV>, from: u32, to: u32)
    ensures
        cases_size(stmt_var_renamed_cases(v, from, to)) == cases_size(v),
    decreases v,
{
    if v.len() > 0 {
        lemma_renamed_size_cases(v.drop_last(), from, to);
        lemma_renamed_size_case(v.last(), from, to);
        assert(
            stmt_var_renamed_cases(v, from, to).drop_last() =~= stmt_var_renamed_cases(
                v.drop_last(),
                from,
                to,
            )
        );
        assert(
            stmt_var_renamed_cases(v, from, to).last() == stmt_var_renamed_case(v.last(), from, to)
        );
    }
}

/// [`lemma_renamed_size`] inside a switch arm.
pub proof fn lemma_renamed_size_case(c: CaseGroupV, from: u32, to: u32)
    ensures
        case_size(stmt_var_renamed_case(c, from, to)) == case_size(c),
    decreases c,
{
    lemma_renamed_size_seq(c.body, from, to);
}

/// [`lemma_renamed_size`] over catch clauses.
pub proof fn lemma_renamed_size_catches(v: Seq<CatchV>, from: u32, to: u32)
    ensures
        catches_size(stmt_var_renamed_catches(v, from, to)) == catches_size(v),
    decreases v,
{
    if v.len() > 0 {
        lemma_renamed_size_catches(v.drop_last(), from, to);
        lemma_renamed_size_catch(v.last(), from, to);
        assert(
            stmt_var_renamed_catches(v, from, to).drop_last() =~= stmt_var_renamed_catches(
                v.drop_last(),
                from,
                to,
            )
        );
        assert(
            stmt_var_renamed_catches(v, from, to).last() == stmt_var_renamed_catch(
                v.last(),
                from,
                to,
            )
        );
    }
}

/// [`lemma_renamed_size`] inside a catch clause.
pub proof fn lemma_renamed_size_catch(c: CatchV, from: u32, to: u32)
    ensures
        catch_size(stmt_var_renamed_catch(c, from, to)) == catch_size(c),
    decreases c,
{
    lemma_renamed_size(*c.body, from, to);
}

// ---------------------------------------------------------------------
// Renaming up to the next assignment.

/// Renames `from` to `to` in the leading statements of `s`, up to the first that
/// assigns `from`; `false` where that one is inside `s`. Of a plain statement
/// that assigns `from` only the assigned value is renamed, and a compound one is
/// left as it is.
pub open spec fn renamed_until(s: StmtV, from: u32, to: u32) -> (StmtV, bool)
    decreases s,
{
    match s {
        StmtV::Block(items) => {
            let (v, on) = renamed_until_seq(items, from, to);
            (StmtV::Block(v), on)
        },
        StmtV::ExprStmt(e) => match e {
            ExprV::Assign { target, op, value } => if as_local(*target) == Some(from) {
                (
                    StmtV::ExprStmt(
                        ExprV::Assign {
                            target,
                            op,
                            value: Box::new(var_renamed(*value, from, to)),
                        },
                    ),
                    false,
                )
            } else {
                renamed_unless_assigned(s, from, to)
            },
            _ => renamed_unless_assigned(s, from, to),
        },
        StmtV::LocalDef { var, .. } => if var == from {
            (s, false)
        } else {
            renamed_unless_assigned(s, from, to)
        },
        _ => renamed_unless_assigned(s, from, to),
    }
}

/// Renames in `s` unless it assigns `from`.
pub open spec fn renamed_unless_assigned(s: StmtV, from: u32, to: u32) -> (StmtV, bool) {
    if stmt_assigns(s, from) {
        (s, false)
    } else {
        (stmt_var_renamed(s, from, to), true)
    }
}

/// [`renamed_until`] along a list.
pub open spec fn renamed_until_seq(v: Seq<StmtV>, from: u32, to: u32) -> (Seq<StmtV>, bool)
    decreases v,
{
    if v.len() == 0 {
        (v, true)
    } else {
        let (front, on) = renamed_until_seq(v.drop_last(), from, to);
        if on {
            let (last, still) = renamed_until(v.last(), from, to);
            (front.push(last), still)
        } else {
            (front.push(v.last()), false)
        }
    }
}

/// Renames `from` to `to` in the leading statements of `s`, up to the first that
/// assigns `from`; whether it went through all of `s`.
pub fn rewrite_var_until_assign(s: &mut Stmt, from: u32, to: u32) -> (on: bool)
    ensures
        (final(s)@, on) == renamed_until(old(s)@, from, to),
    decreases *old(s),
{
    let assigned = stmt_assigns_var(s, from);
    match s {
        Stmt::Block(v) => return rewrite_until_vec(v, from, to),
        Stmt::ExprStmt(Expr::Assign { target, value, .. }) => {
            if is_local(target, from) {
                rw_expr(value, from, to);
                return false;
            }
        },
        Stmt::LocalDef { var, .. } => {
            if *var == from {
                return false;
            }
        },
        _ => {},
    }
    if assigned {
        return false;
    }
    rewrite_var(s, from, to);
    true
}

/// `rewrite_var_until_assign` along a list.
#[verifier::loop_isolation(false)]
fn rewrite_until_vec(v: &mut Vec<Stmt>, from: u32, to: u32) -> (on: bool)
    ensures
        (stmts(final(v)@), on) == renamed_until_seq(stmts(old(v)@), from, to),
    decreases *old(v),
{
    let ghost all = stmts(v@);
    let mut on = true;
    let mut i: usize = 0;
    assert(stmts(v@.take(0)) =~= all.take(0));
    while i < v.len()
        invariant
            i <= v.len(),
            v.len() == old(v).len(),
            (stmts(v@.take(i as int)), on) == renamed_until_seq(all.take(i as int), from, to),
            forall|j: int| i <= j < v.len() ==> #[trigger] v@[j] == old(v)@[j],
        decreases v.len() - i,
    {
        let ghost before = stmts(v@.take(i as int));
        assert(all.take(i + 1).drop_last() =~= all.take(i as int));
        assert(all.take(i + 1).last() == v@[i as int]@);
        assert(decreases_to!(*old(v) => v@[i as int]));
        if on {
            on = rewrite_var_until_assign(&mut v[i], from, to);
        }
        i += 1;
        assert(stmts(v@.take(i as int)) =~= before.push(v@[i - 1]@));
    }
    assert(v@.take(i as int) =~= v@);
    assert(all.take(i as int) =~= all);
    on
}

/// Renaming keeps the size.
pub proof fn lemma_renamed_until_size(s: StmtV, from: u32, to: u32)
    ensures
        stmt_size(renamed_until(s, from, to).0) == stmt_size(s),
    decreases s,
{
    lemma_renamed_size(s, from, to);
    if let StmtV::Block(items) = s {
        lemma_renamed_until_size_seq(items, from, to);
    }
}

/// Renaming keeps the size of a list.
proof fn lemma_renamed_until_size_seq(v: Seq<StmtV>, from: u32, to: u32)
    ensures
        stmts_size(renamed_until_seq(v, from, to).0) == stmts_size(v),
    decreases v,
{
    if v.len() > 0 {
        lemma_renamed_until_size_seq(v.drop_last(), from, to);
        lemma_renamed_until_size(v.last(), from, to);
        let front = renamed_until_seq(v.drop_last(), from, to).0;
        assert(renamed_until_seq(v, from, to).0.drop_last() =~= front);
    }
}

// ---------------------------------------------------------------------
// First statement.

/// The first statement that is not a block, blocks entered.
pub open spec fn first_leaf(s: StmtV) -> Option<StmtV>
    decreases s,
{
    match s {
        StmtV::Block(items) => if items.len() == 0 {
            None
        } else {
            first_leaf(items[0])
        },
        _ => Some(s),
    }
}

/// `s` without its first statement; a nested block that becomes empty goes too.
pub open spec fn first_removed(s: StmtV) -> StmtV
    decreases s,
{
    match s {
        StmtV::Block(items) => if items.len() == 0 {
            s
        } else if items[0] is Block && !is_empty_block(first_removed(items[0])) {
            StmtV::Block(items.update(0, first_removed(items[0])))
        } else {
            StmtV::Block(items.skip(1))
        },
        _ => empty_block(),
    }
}

/// The first statement that is not a block.
pub fn first_stmt(s: &Stmt) -> (r: Option<&Stmt>)
    ensures
        match r {
            Some(x) => first_leaf(s@) == Some(x@),
            None => first_leaf(s@) is None,
        },
    decreases s,
{
    match s {
        Stmt::Block(v) => {
            assert(stmts(v@).len() == v@.len());
            if v.len() == 0 {
                return None;
            }
            assert(decreases_to!(v => v@[0]));
            assert(stmts(v@)[0] == v@[0]@);
            first_stmt(&v[0])
        },
        _ => Some(s),
    }
}

/// A copy of the first statement of a block, or of the statement itself; an empty
/// block where there is none.
pub fn first_stmt_peek(s: &Stmt) -> (r: Stmt)
    ensures
        r@ == match s@ {
            StmtV::Block(v) => if v.len() > 0 {
                v[0]
            } else {
                empty_block()
            },
            other => other,
        },
{
    match s {
        Stmt::Block(v) => {
            assert(stmts(v@).len() == v@.len());
            if v.len() == 0 {
                return no_stmt();
            }
            assert(stmts(v@)[0] == v@[0]@);
            v[0].clone()
        },
        _ => s.clone(),
    }
}

/// Removes the first statement.
pub fn remove_first_stmt(s: &mut Stmt)
    ensures
        final(s)@ == first_removed(old(s)@),
    decreases *old(s),
{
    if let Stmt::Block(v) = s {
        remove_first(v);
    } else {
        *s = no_stmt();
    }
}

/// Removes the first statement of a list.
fn remove_first(v: &mut Vec<Stmt>)
    ensures
        StmtV::Block(stmts(final(v)@)) == first_removed(StmtV::Block(stmts(old(v)@))),
    decreases *old(v),
{
    if v.len() == 0 {
        return ;
    }
    let ghost all = stmts(v@);
    assert(all[0] == v@[0]@);
    let mut gone = true;
    if matches!(&v[0], Stmt::Block(_)) {
        assert(decreases_to!(*old(v) => v@[0]));
        remove_first_stmt(&mut v[0]);
        gone = v[0].is_empty_block();
        assert(stmts(v@) =~= all.update(0, first_removed(all[0])));
    }
    if gone {
        let ghost rest = v@.skip(1);
        v.remove(0);
        assert(v@ =~= rest);
        assert(stmts(v@) =~= all.skip(1));
    }
}

/// Removing the first statement does not add to the size.
pub proof fn lemma_first_removed_size(s: StmtV)
    ensures
        stmt_size(first_removed(s)) <= stmt_size(s),
    decreases s,
{
    assert(stmts_size(seq![]) == 0);
    if let StmtV::Block(items) = s {
        if items.len() > 0 {
            lemma_stmts_size_first(items);
            lemma_first_removed_size(items[0]);
            let inner = items.update(0, first_removed(items[0]));
            lemma_stmts_size_first(inner);
            assert(inner.skip(1) =~= items.skip(1));
        }
    }
}

} // verus!
