//! The static types of local accesses, and the casts that they call for.
use crate::expr::{
    concat_parts, exprs, opt_box, opt_expr, opt_exprs, take_expr, type_of, ConcatPart, ConcatPartV,
    Expr, ExprV, LambdaExpr, LambdaExprV,
};
use crate::stmt::{
    case_groups, catch_list, opt_stmt, stmts, CaseGroup, CaseGroupV, Catch, CatchV, Stmt, StmtV,
};
use crate::types::{erase, object_type, JType, JTypeV, TypeRef, TypeRefV};
use crate::var::{var_type, VarTable, VarTableV};
use vstd::prelude::*;

verus! {

/// Model of a list of types.
pub open spec fn type_refs(v: Seq<TypeRef>) -> Seq<TypeRefV> {
    Seq::new(v.len(), |i: int| v[i]@)
}

/// The types of all variables, by id.
pub open spec fn var_types(vt: VarTableV) -> Seq<TypeRefV> {
    Seq::new(vt.vars.len(), |i: int| vt.vars[i].ty)
}

/// The types of all variables, by id.
pub fn local_types(vt: &VarTable) -> (r: Vec<TypeRef>)
    ensures
        type_refs(r@) == var_types(vt@),
{
    let mut r: Vec<TypeRef> = Vec::new();
    let mut i: usize = 0;
    while i < vt.vars.len()
        invariant
            i <= vt.vars.len(),
            r.len() == i,
            forall|j: int| 0 <= j < i ==> (#[trigger] r@[j])@ == vt@.vars[j].ty,
        decreases vt.vars.len() - i,
    {
        r.push(vt.vars[i].ty.clone());
        i += 1;
    }
    assert(type_refs(r@) =~= var_types(vt@));
    r
}

/// `e` with its local accesses given their variables' types.
pub open spec fn retyped(e: ExprV, types: Seq<TypeRefV>) -> ExprV
    decreases e,
{
    match e {
        ExprV::Const(c) => ExprV::Const(c),
        ExprV::Local { var, ty } => ExprV::Local {
            var,
            ty: if var < types.len() { types[var as int] } else { ty },
        },
        ExprV::This => ExprV::This,
        ExprV::New { cls, ty, args, raw } => ExprV::New {
            cls,
            ty,
            args: retyped_exprs(args, types),
            raw,
        },
        ExprV::NewArray { elem, dims, trailing_dims, init } => ExprV::NewArray {
            elem,
            dims: retyped_exprs(dims, types),
            trailing_dims,
            init: retyped_oexprs(init, types),
        },
        ExprV::Field { owner, cls, name, ty, is_static } => ExprV::Field {
            owner: retyped_opt(owner, types),
            cls,
            name,
            ty,
            is_static,
        },
        ExprV::Method {
            owner,
            cls,
            name,
            desc,
            args,
            is_static,
            is_interface,
            is_special,
            is_super,
            is_dynamic,
            type_args,
        } => ExprV::Method {
            owner: retyped_opt(owner, types),
            cls,
            name,
            desc,
            args: retyped_exprs(args, types),
            is_static,
            is_interface,
            is_special,
            is_super,
            is_dynamic,
            type_args,
        },
        ExprV::ArrayIndex { array, index } => ExprV::ArrayIndex {
            array: Box::new(retyped(*array, types)),
            index: Box::new(retyped(*index, types)),
        },
        ExprV::Cast { ty, e } => ExprV::Cast { ty, e: Box::new(retyped(*e, types)) },
        ExprV::InstanceOf { e, ty } => ExprV::InstanceOf { e: Box::new(retyped(*e, types)), ty },
        ExprV::Un { op, e } => ExprV::Un { op, e: Box::new(retyped(*e, types)) },
        ExprV::Bin { op, l, r, ty } => ExprV::Bin {
            op,
            l: Box::new(retyped(*l, types)),
            r: Box::new(retyped(*r, types)),
            ty,
        },
        ExprV::Cond { c, t, f } => ExprV::Cond {
            c: Box::new(retyped(*c, types)),
            t: Box::new(retyped(*t, types)),
            f: Box::new(retyped(*f, types)),
        },
        ExprV::Assign { target, op, value } => ExprV::Assign {
            target: Box::new(retyped(*target, types)),
            op,
            value: Box::new(retyped(*value, types)),
        },
        ExprV::PreIncDec { e, delta, wide } => ExprV::PreIncDec {
            e: Box::new(retyped(*e, types)),
            delta,
            wide,
        },
        ExprV::PostIncDec { e, delta, wide } => ExprV::PostIncDec {
            e: Box::new(retyped(*e, types)),
            delta,
            wide,
        },
        ExprV::Lambda(l) => ExprV::Lambda(Box::new(retyped_captures(*l, types))),
        ExprV::StringConcat(parts) => ExprV::StringConcat(retyped_parts(parts, types)),
        ExprV::Raw(text) => ExprV::Raw(text),
        ExprV::RawT(text, ty) => ExprV::RawT(text, ty),
        ExprV::Invokedynamic {
            name,
            desc,
            args,
            bsm_text,
            bsm_static_args,
        } => ExprV::Invokedynamic {
            name,
            desc,
            args: retyped_exprs(args, types),
            bsm_text,
            bsm_static_args,
        },
        ExprV::AnonNew { cls, base, args, body } => ExprV::AnonNew {
            cls,
            base,
            args: retyped_exprs(args, types),
            body,
        },
        ExprV::NewMultiArray { ty, dims } => ExprV::NewMultiArray {
            ty,
            dims: retyped_exprs(dims, types),
        },
        _ => e,
    }
}

/// [`retyped`] where there is a value.
pub open spec fn retyped_opt(o: Option<Box<ExprV>>, types: Seq<TypeRefV>) -> Option<Box<ExprV>>
    decreases o,
{
    match o {
        Some(x) => Some(Box::new(retyped(*x, types))),
        None => None,
    }
}

/// [`retyped`] where there is a value.
pub open spec fn retyped_oexprs(o: Option<Seq<ExprV>>, types: Seq<TypeRefV>) -> Option<Seq<ExprV>>
    decreases o,
{
    match o {
        Some(x) => Some(retyped_exprs(x, types)),
        None => None,
    }
}

/// [`retyped`] inside the captures of a lambda.
pub open spec fn retyped_captures(l: LambdaExprV, types: Seq<TypeRefV>) -> LambdaExprV
    decreases l,
{
    LambdaExprV { captures: retyped_exprs(l.captures, types), ..l }
}

/// [`retyped`] over a list.
pub open spec fn retyped_exprs(v: Seq<ExprV>, types: Seq<TypeRefV>) -> Seq<ExprV>
    decreases v,
{
    Seq::new(v.len(), |i: int| if 0 <= i < v.len() { retyped(v[i], types) } else { arbitrary() })
}

/// [`retyped`] inside a concatenation piece.
pub open spec fn retyped_part(p: ConcatPartV, types: Seq<TypeRefV>) -> ConcatPartV
    decreases p,
{
    match p {
        ConcatPartV::Str(e) => ConcatPartV::Str(retyped(e, types)),
        ConcatPartV::Const(_) => p,
    }
}

/// [`retyped`] over a list.
pub open spec fn retyped_parts(v: Seq<ConcatPartV>, types: Seq<TypeRefV>) -> Seq<ConcatPartV>
    decreases v,
{
    Seq::new(
        v.len(),
        |i: int| if 0 <= i < v.len() { retyped_part(v[i], types) } else { arbitrary() },
    )
}

/// [`retyped`] where there is a value.
pub open spec fn retyped_oexpr(o: Option<ExprV>, types: Seq<TypeRefV>) -> Option<ExprV>
    decreases o,
{
    match o {
        Some(x) => Some(retyped(x, types)),
        None => None,
    }
}

/// Gives the local accesses in `e` their variables' types.
pub fn rewrite_expr(e: &mut Expr, types: &Vec<TypeRef>)
    ensures
        final(e)@ == retyped(old(e)@, type_refs(types@)),
    decreases *old(e),
{
    match e {
        Expr::Const(_) => {  },
        Expr::Local { var, ty } => {
            if (*var as usize) < types.len() { *ty = types[*var as usize].clone(); }
        },
        Expr::This => {  },
        Expr::New { args, .. } => { rewrite_expr_exprs(args, types); },
        Expr::NewArray { dims, init, .. } => {
            rewrite_expr_exprs(dims, types);
            rewrite_expr_oexprs(init, types);
        },
        Expr::Field { owner, .. } => { rewrite_expr_opt(owner, types); },
        Expr::Method { owner, args, .. } => {
            rewrite_expr_opt(owner, types);
            rewrite_expr_exprs(args, types);
        },
        Expr::ArrayIndex { array, index } => {
            rewrite_expr(array, types);
            rewrite_expr(index, types);
        },
        Expr::Cast { e, .. } => { rewrite_expr(e, types); },
        Expr::InstanceOf { e, .. } => { rewrite_expr(e, types); },
        Expr::Un { e, .. } => { rewrite_expr(e, types); },
        Expr::Bin { l, r, .. } => { rewrite_expr(l, types); rewrite_expr(r, types); },
        Expr::Cond { c, t, f } => {
            rewrite_expr(c, types);
            rewrite_expr(t, types);
            rewrite_expr(f, types);
        },
        Expr::Assign { target, value, .. } => {
            rewrite_expr(target, types);
            rewrite_expr(value, types);
        },
        Expr::PreIncDec { e, .. } => { rewrite_expr(e, types); },
        Expr::PostIncDec { e, .. } => { rewrite_expr(e, types); },
        Expr::Lambda(l) => { rewrite_expr_captures(l, types); },
        Expr::StringConcat(parts) => { rewrite_expr_parts(parts, types); },
        Expr::Raw(_) => {  },
        Expr::RawT(_, _) => {  },
        Expr::Invokedynamic { args, .. } => { rewrite_expr_exprs(args, types); },
        Expr::AnonNew { args, .. } => { rewrite_expr_exprs(args, types); },
        Expr::NewMultiArray { dims, .. } => { rewrite_expr_exprs(dims, types); },
        _ => {},
    }
}

/// `rewrite_expr` where there is a value.
pub fn rewrite_expr_opt(o: &mut Option<Box<Expr>>, types: &Vec<TypeRef>)
    ensures
        opt_box(*final(o)) == retyped_opt(opt_box(*old(o)), type_refs(types@)),
    decreases *old(o),
{
    if let Some(x) = o {
        rewrite_expr(x, types);
    }
}

/// `rewrite_expr` where there is a value.
pub fn rewrite_expr_oexprs(o: &mut Option<Vec<Expr>>, types: &Vec<TypeRef>)
    ensures
        opt_exprs(*final(o)) == retyped_oexprs(opt_exprs(*old(o)), type_refs(types@)),
    decreases *old(o),
{
    if let Some(x) = o {
        rewrite_expr_exprs(x, types);
    }
}

/// `rewrite_expr` inside the captures of a lambda.
pub fn rewrite_expr_captures(l: &mut LambdaExpr, types: &Vec<TypeRef>)
    ensures
        final(l)@ == retyped_captures(old(l)@, type_refs(types@)),
    decreases *old(l),
{
    rewrite_expr_exprs(&mut l.captures, types);
}

/// `rewrite_expr` over a list.
#[verifier::loop_isolation(false)]
pub fn rewrite_expr_exprs(v: &mut Vec<Expr>, types: &Vec<TypeRef>)
    ensures
        exprs(final(v)@) == retyped_exprs(exprs(old(v)@), type_refs(types@)),
    decreases *old(v),
{
    let mut i: usize = 0;
    while i < v.len()
        invariant
            i <= v.len(),
            v.len() == old(v).len(),
            forall|j: int|
                0 <= j < i ==> (#[trigger] v@[j])@ == retyped(old(v)@[j]@, type_refs(types@)),
            forall|j: int| i <= j < v.len() ==> #[trigger] v@[j] == old(v)@[j],
        decreases v.len() - i,
    {
        assert(decreases_to!(*old(v) => v@[i as int]));
        rewrite_expr(&mut v[i], types);
        i += 1;
    }
    assert(exprs(v@) =~= retyped_exprs(exprs(old(v)@), type_refs(types@)));
}

/// `rewrite_expr` inside a concatenation piece.
pub fn rewrite_expr_part(p: &mut ConcatPart, types: &Vec<TypeRef>)
    ensures
        final(p)@ == retyped_part(old(p)@, type_refs(types@)),
    decreases *old(p),
{
    match p {
        ConcatPart::Str(e) => rewrite_expr(e, types),
        ConcatPart::Const(_) => {},
    }
}

/// `rewrite_expr` over a list.
#[verifier::loop_isolation(false)]
pub fn rewrite_expr_parts(v: &mut Vec<ConcatPart>, types: &Vec<TypeRef>)
    ensures
        concat_parts(final(v)@) == retyped_parts(concat_parts(old(v)@), type_refs(types@)),
    decreases *old(v),
{
    let mut i: usize = 0;
    while i < v.len()
        invariant
            i <= v.len(),
            v.len() == old(v).len(),
            forall|j: int|
                0 <= j < i ==> (#[trigger] v@[j])@ == retyped_part(old(v)@[j]@, type_refs(types@)),
            forall|j: int| i <= j < v.len() ==> #[trigger] v@[j] == old(v)@[j],
        decreases v.len() - i,
    {
        assert(decreases_to!(*old(v) => v@[i as int]));
        rewrite_expr_part(&mut v[i], types);
        i += 1;
    }
    assert(concat_parts(v@) =~= retyped_parts(concat_parts(old(v)@), type_refs(types@)));
}

/// `rewrite_expr` where there is a value.
pub fn rewrite_expr_oexpr(o: &mut Option<Expr>, types: &Vec<TypeRef>)
    ensures
        opt_expr(*final(o)) == retyped_oexpr(opt_expr(*old(o)), type_refs(types@)),
    decreases *old(o),
{
    if let Some(x) = o {
        rewrite_expr(x, types);
    }
}

/// `s` with its local accesses given their variables' types.
pub open spec fn stmt_retyped(s: StmtV, types: Seq<TypeRefV>) -> StmtV
    decreases s,
{
    match s {
        StmtV::Block(items) => StmtV::Block(stmt_retyped_seq(items, types)),
        StmtV::ExprStmt(e) => StmtV::ExprStmt(retyped(e, types)),
        StmtV::LocalDef { var, init, is_final, force_type } => StmtV::LocalDef {
            var,
            init: retyped_oexpr(init, types),
            is_final,
            force_type,
        },
        StmtV::Return(e) => StmtV::Return(retyped_oexpr(e, types)),
        StmtV::Throw(e) => StmtV::Throw(retyped(e, types)),
        StmtV::If { cond, then_stmt, else_stmt } => StmtV::If {
            cond: retyped(cond, types),
            then_stmt: Box::new(stmt_retyped(*then_stmt, types)),
            else_stmt: stmt_retyped_opt(else_stmt, types),
        },
        StmtV::While { cond, body } => StmtV::While {
            cond: retyped(cond, types),
            body: Box::new(stmt_retyped(*body, types)),
        },
        StmtV::DoWhile { body, cond } => StmtV::DoWhile {
            body: Box::new(stmt_retyped(*body, types)),
            cond: retyped(cond, types),
        },
        StmtV::For { init, cond, update, body } => StmtV::For {
            init: stmt_retyped_seq(init, types),
            cond: retyped_oexpr(cond, types),
            update: retyped_exprs(update, types),
            body: Box::new(stmt_retyped(*body, types)),
        },
        StmtV::ForEach { var, iterable, is_array, body } => StmtV::ForEach {
            var,
            iterable: retyped(iterable, types),
            is_array,
            body: Box::new(stmt_retyped(*body, types)),
        },
        StmtV::Switch { selector, cases, default, on_string } => StmtV::Switch {
            selector: retyped(selector, types),
            cases: stmt_retyped_cases(cases, types),
            default: stmt_retyped_opt(default, types),
            on_string,
        },
        StmtV::Try { body, catches, finally } => StmtV::Try {
            body: Box::new(stmt_retyped(*body, types)),
            catches: stmt_retyped_catches(catches, types),
            finally: stmt_retyped_opt(finally, types),
        },
        StmtV::TryWithResources { resources, body, catches, finally } => StmtV::TryWithResources {
            resources: stmt_retyped_seq(resources, types),
            body: Box::new(stmt_retyped(*body, types)),
            catches: stmt_retyped_catches(catches, types),
            finally: stmt_retyped_opt(finally, types),
        },
        StmtV::Synchronized { lock, body } => StmtV::Synchronized {
            lock: retyped(lock, types),
            body: Box::new(stmt_retyped(*body, types)),
        },
        StmtV::Label(n) => StmtV::Label(n),
        StmtV::Goto(n) => StmtV::Goto(n),
        StmtV::ClassDecl { name, header, body } => StmtV::ClassDecl { name, header, body },
        StmtV::Break(label) => StmtV::Break(label),
        StmtV::Continue(label) => StmtV::Continue(label),
        StmtV::Comment(text) => StmtV::Comment(text),
        StmtV::Labeled { label, body } => StmtV::Labeled {
            label,
            body: Box::new(stmt_retyped(*body, types)),
        },
        StmtV::Assert { cond, msg } => StmtV::Assert {
            cond: retyped(cond, types),
            msg: retyped_oexpr(msg, types),
        },
        StmtV::TernaryValue { e } => StmtV::TernaryValue { e: retyped(e, types) },
        StmtV::MonitorEnter(e) => StmtV::MonitorEnter(retyped(e, types)),
        StmtV::MonitorExit(e) => StmtV::MonitorExit(retyped(e, types)),
        _ => s,
    }
}

/// [`stmt_retyped`] where there is a value.
pub open spec fn stmt_retyped_opt(o: Option<Box<StmtV>>, types: Seq<TypeRefV>) -> Option<Box<StmtV>>
    decreases o,
{
    match o {
        Some(x) => Some(Box::new(stmt_retyped(*x, types))),
        None => None,
    }
}

/// [`stmt_retyped`] over a list.
pub open spec fn stmt_retyped_seq(v: Seq<StmtV>, types: Seq<TypeRefV>) -> Seq<StmtV>
    decreases v,
{
    Seq::new(
        v.len(),
        |i: int| if 0 <= i < v.len() { stmt_retyped(v[i], types) } else { arbitrary() },
    )
}

/// [`stmt_retyped`] inside a switch arm.
pub open spec fn stmt_retyped_case(c: CaseGroupV, types: Seq<TypeRefV>) -> CaseGroupV
    decreases c,
{
    CaseGroupV { guard: retyped_oexpr(c.guard, types), body: stmt_retyped_seq(c.body, types), ..c }
}

/// [`stmt_retyped`] over a list.
pub open spec fn stmt_retyped_cases(v: Seq<CaseGroupV>, types: Seq<TypeRefV>) -> Seq<CaseGroupV>
    decreases v,
{
    Seq::new(
        v.len(),
        |i: int| if 0 <= i < v.len() { stmt_retyped_case(v[i], types) } else { arbitrary() },
    )
}

/// [`stmt_retyped`] inside a catch clause.
pub open spec fn stmt_retyped_catch(c: CatchV, types: Seq<TypeRefV>) -> CatchV
    decreases c,
{
    CatchV { body: Box::new(stmt_retyped(*c.body, types)), ..c }
}

/// [`stmt_retyped`] over a list.
pub open spec fn stmt_retyped_catches(v: Seq<CatchV>, types: Seq<TypeRefV>) -> Seq<CatchV>
    decreases v,
{
    Seq::new(
        v.len(),
        |i: int| if 0 <= i < v.len() { stmt_retyped_catch(v[i], types) } else { arbitrary() },
    )
}

/// Gives the local accesses in `s` their variables' types.
pub fn rewrite_local_types(s: &mut Stmt, types: &Vec<TypeRef>)
    ensures
        final(s)@ == stmt_retyped(old(s)@, type_refs(types@)),
    decreases *old(s),
{
    match s {
        Stmt::Block(items) => { rewrite_local_types_vec(items, types); },
        Stmt::ExprStmt(e) => { rewrite_expr(e, types); },
        Stmt::LocalDef { init, .. } => { rewrite_expr_oexpr(init, types); },
        Stmt::Return(e) => { rewrite_expr_oexpr(e, types); },
        Stmt::Throw(e) => { rewrite_expr(e, types); },
        Stmt::If { cond, then_stmt, else_stmt } => {
            rewrite_expr(cond, types);
            rewrite_local_types(then_stmt, types);
            rewrite_local_types_opt(else_stmt, types);
        },
        Stmt::While { cond, body } => {
            rewrite_expr(cond, types);
            rewrite_local_types(body, types);
        },
        Stmt::DoWhile { body, cond } => {
            rewrite_local_types(body, types);
            rewrite_expr(cond, types);
        },
        Stmt::For { init, cond, update, body } => {
            rewrite_local_types_vec(init, types);
            rewrite_expr_oexpr(cond, types);
            rewrite_expr_exprs(update, types);
            rewrite_local_types(body, types);
        },
        Stmt::ForEach { iterable, body, .. } => {
            rewrite_expr(iterable, types);
            rewrite_local_types(body, types);
        },
        Stmt::Switch { selector, cases, default, .. } => {
            rewrite_expr(selector, types);
            rewrite_local_types_cases(cases, types);
            rewrite_local_types_opt(default, types);
        },
        Stmt::Try { body, catches, finally } => {
            rewrite_local_types(body, types);
            rewrite_local_types_catches(catches, types);
            rewrite_local_types_opt(finally, types);
        },
        Stmt::TryWithResources { resources, body, catches, finally } => {
            rewrite_local_types_vec(resources, types);
            rewrite_local_types(body, types);
            rewrite_local_types_catches(catches, types);
            rewrite_local_types_opt(finally, types);
        },
        Stmt::Synchronized { lock, body } => {
            rewrite_expr(lock, types);
            rewrite_local_types(body, types);
        },
        Stmt::Label(_) => {  },
        Stmt::Goto(_) => {  },
        Stmt::ClassDecl { .. } => {  },
        Stmt::Break(_) => {  },
        Stmt::Continue(_) => {  },
        Stmt::Comment(_) => {  },
        Stmt::Labeled { body, .. } => { rewrite_local_types(body, types); },
        Stmt::Assert { cond, msg } => {
            rewrite_expr(cond, types);
            rewrite_expr_oexpr(msg, types);
        },
        Stmt::TernaryValue { e } => { rewrite_expr(e, types); },
        Stmt::MonitorEnter(e) => { rewrite_expr(e, types); },
        Stmt::MonitorExit(e) => { rewrite_expr(e, types); },
        _ => {},
    }
}

/// `rewrite_local_types` where there is a value.
pub fn rewrite_local_types_opt(o: &mut Option<Box<Stmt>>, types: &Vec<TypeRef>)
    ensures
        opt_stmt(*final(o)) == stmt_retyped_opt(opt_stmt(*old(o)), type_refs(types@)),
    decreases *old(o),
{
    if let Some(x) = o {
        rewrite_local_types(x, types);
    }
}

/// `rewrite_local_types` over a list.
#[verifier::loop_isolation(false)]
pub fn rewrite_local_types_vec(v: &mut Vec<Stmt>, types: &Vec<TypeRef>)
    ensures
        stmts(final(v)@) == stmt_retyped_seq(stmts(old(v)@), type_refs(types@)),
    decreases *old(v),
{
    let mut i: usize = 0;
    while i < v.len()
        invariant
            i <= v.len(),
            v.len() == old(v).len(),
            forall|j: int|
                0 <= j < i ==> (#[trigger] v@[j])@ == stmt_retyped(old(v)@[j]@, type_refs(types@)),
            forall|j: int| i <= j < v.len() ==> #[trigger] v@[j] == old(v)@[j],
        decreases v.len() - i,
    {
        assert(decreases_to!(*old(v) => v@[i as int]));
        rewrite_local_types(&mut v[i], types);
        i += 1;
    }
    assert(stmts(v@) =~= stmt_retyped_seq(stmts(old(v)@), type_refs(types@)));
}

/// `rewrite_local_types` inside a switch arm.
pub fn rewrite_local_types_case(c: &mut CaseGroup, types: &Vec<TypeRef>)
    ensures
        final(c)@ == stmt_retyped_case(old(c)@, type_refs(types@)),
    decreases *old(c),
{
    rewrite_expr_oexpr(&mut c.guard, types);
    rewrite_local_types_vec(&mut c.body, types);
}

/// `rewrite_local_types` over a list.
#[verifier::loop_isolation(false)]
pub fn rewrite_local_types_cases(v: &mut Vec<CaseGroup>, types: &Vec<TypeRef>)
    ensures
        case_groups(final(v)@) == stmt_retyped_cases(case_groups(old(v)@), type_refs(types@)),
    decreases *old(v),
{
    let mut i: usize = 0;
    while i < v.len()
        invariant
            i <= v.len(),
            v.len() == old(v).len(),
            forall|j: int|
                0 <= j < i
                    ==> (#[trigger] v@[j])@ == stmt_retyped_case(old(v)@[j]@, type_refs(types@)),
            forall|j: int| i <= j < v.len() ==> #[trigger] v@[j] == old(v)@[j],
        decreases v.len() - i,
    {
        assert(decreases_to!(*old(v) => v@[i as int]));
        rewrite_local_types_case(&mut v[i], types);
        i += 1;
    }
    assert(case_groups(v@) =~= stmt_retyped_cases(case_groups(old(v)@), type_refs(types@)));
}

/// `rewrite_local_types` inside a catch clause.
pub fn rewrite_local_types_catch(c: &mut Catch, types: &Vec<TypeRef>)
    ensures
        final(c)@ == stmt_retyped_catch(old(c)@, type_refs(types@)),
    decreases *old(c),
{
    rewrite_local_types(&mut c.body, types);
}

/// `rewrite_local_types` over a list.
#[verifier::loop_isolation(false)]
pub fn rewrite_local_types_catches(v: &mut Vec<Catch>, types: &Vec<TypeRef>)
    ensures
        catch_list(final(v)@) == stmt_retyped_catches(catch_list(old(v)@), type_refs(types@)),
    decreases *old(v),
{
    let mut i: usize = 0;
    while i < v.len()
        invariant
            i <= v.len(),
            v.len() == old(v).len(),
            forall|j: int|
                0 <= j < i
                    ==> (#[trigger] v@[j])@ == stmt_retyped_catch(old(v)@[j]@, type_refs(types@)),
            forall|j: int| i <= j < v.len() ==> #[trigger] v@[j] == old(v)@[j],
        decreases v.len() - i,
    {
        assert(decreases_to!(*old(v) => v@[i as int]));
        rewrite_local_types_catch(&mut v[i], types);
        i += 1;
    }
    assert(catch_list(v@) =~= stmt_retyped_catches(catch_list(old(v)@), type_refs(types@)));
}

// ---------------------------------------------------------------------
// Casts.

/// Types narrower than `int`.
pub open spec fn is_narrow(t: JTypeV) -> bool {
    t is Byte || t is Short || t is Char
}

/// A cast of `e` to `t`.
pub open spec fn cast_to(t: JTypeV, e: ExprV) -> ExprV {
    ExprV::Cast { ty: TypeRefV::J(t), e: Box::new(e) }
}

/// Wraps `e` in a cast to `t`.
pub fn wrap_cast(e: &mut Expr, t: &JType)
    ensures
        final(e)@ == cast_to(t@, old(e)@),
{
    let inner = take_expr(e);
    *e = Expr::Cast { ty: TypeRef::J(t.clone()), e: Box::new(inner) };
}

/// A value of type `int` given to a target of type `want`: accesses, calls and
/// conditionals are cast where the target is narrower.
pub open spec fn narrowed(value: ExprV, want: JTypeV) -> ExprV {
    if is_narrow(want) && (value is Local || value is Method || value is Field
        || value is ArrayIndex
        || value is Cond) && erase(type_of(value)) is Int {
        cast_to(want, value)
    } else {
        value
    }
}

/// Casts a value that is given to a narrower target.
fn fix_narrow(value: &mut Expr, want: &JType)
    ensures
        final(value)@ == narrowed(old(value)@, want@),
{
    if matches!(want, JType::Byte | JType::Short | JType::Char) && matches!(
        value,
        Expr::Local { .. }
        | Expr::Method { .. }
        | Expr::Field { .. }
        | Expr::ArrayIndex { .. }
        | Expr::Cond { .. }
    ) && matches!(value.type_ref().erased(), JType::Int) {
        wrap_cast(value, want);
    }
}

/// Type of what an assignment stores to, where that is a local or array element.
pub open spec fn stored_type(target: ExprV, vt: VarTableV) -> Option<JTypeV> {
    match target {
        ExprV::Local { var, .. } => Some(erase(var_type(vt, var))),
        ExprV::ArrayIndex { array, .. } => match erase(type_of(*array)) {
            JTypeV::Array(elem) => Some(*elem),
            _ => None,
        },
        _ => None,
    }
}

/// An assignment with its value cast where the target is narrower.
pub open spec fn assign_narrowed(e: ExprV, vt: VarTableV) -> ExprV {
    match e {
        ExprV::Assign { target, op, value } => match stored_type(*target, vt) {
            Some(t) => ExprV::Assign { target, op, value: Box::new(narrowed(*value, t)) },
            None => e,
        },
        _ => e,
    }
}

/// Type of what an assignment stores to.
fn target_type(target: &Expr, vt: &VarTable) -> (r: Option<JType>)
    ensures
        match r {
            Some(t) => stored_type(target@, vt@) == Some(t@),
            None => stored_type(target@, vt@) is None,
        },
{
    match target {
        Expr::Local { var, .. } => Some(vt.var_type(*var).erased()),
        Expr::ArrayIndex { array, .. } => match array.type_ref().erased() {
            JType::Array(elem) => Some(*elem),
            _ => None,
        },
        _ => None,
    }
}

/// Casts the value of an assignment where the target is narrower.
fn fix_assign(e: &mut Expr, vt: &VarTable)
    ensures
        final(e)@ == assign_narrowed(old(e)@, vt@),
{
    if let Expr::Assign { target, value, .. } = e {
        if let Some(t) = target_type(target, vt) {
            fix_narrow(value, &t);
        }
    }
}

/// An initialiser cast where its variable is narrower.
pub open spec fn init_narrowed(init: Option<ExprV>, t: JTypeV) -> Option<ExprV> {
    match init {
        Some(e) => Some(narrowed(e, t)),
        None => None,
    }
}

/// `s` with `int` values cast where a narrower target takes them.
pub open spec fn narrowing_cast(s: StmtV, vt: VarTableV) -> StmtV
    decreases s,
{
    match s {
        StmtV::Block(items) => StmtV::Block(narrowing_cast_seq(items, vt)),
        StmtV::ExprStmt(e) => StmtV::ExprStmt(assign_narrowed(e, vt)),
        StmtV::LocalDef { var, init, is_final, force_type } => StmtV::LocalDef {
            var,
            init: init_narrowed(init, erase(var_type(vt, var))),
            is_final,
            force_type,
        },
        StmtV::If { cond, then_stmt, else_stmt } => StmtV::If {
            cond,
            then_stmt: Box::new(narrowing_cast(*then_stmt, vt)),
            else_stmt: narrowing_cast_opt(else_stmt, vt),
        },
        StmtV::While { cond, body } => StmtV::While {
            cond,
            body: Box::new(narrowing_cast(*body, vt)),
        },
        StmtV::DoWhile { body, cond } => StmtV::DoWhile {
            body: Box::new(narrowing_cast(*body, vt)),
            cond,
        },
        StmtV::For { init, cond, update, body } => StmtV::For {
            init: narrowing_cast_seq(init, vt),
            cond,
            update,
            body: Box::new(narrowing_cast(*body, vt)),
        },
        StmtV::ForEach { var, iterable, is_array, body } => StmtV::ForEach {
            var,
            iterable,
            is_array,
            body: Box::new(narrowing_cast(*body, vt)),
        },
        StmtV::Switch { selector, cases, default, on_string } => StmtV::Switch {
            selector,
            cases: narrowing_cast_cases(cases, vt),
            default: narrowing_cast_opt(default, vt),
            on_string,
        },
        StmtV::Try { body, catches, finally } => StmtV::Try {
            body: Box::new(narrowing_cast(*body, vt)),
            catches: narrowing_cast_catches(catches, vt),
            finally: narrowing_cast_opt(finally, vt),
        },
        StmtV::TryWithResources { resources, body, catches, finally } => StmtV::TryWithResources {
            resources: narrowing_cast_seq(resources, vt),
            body: Box::new(narrowing_cast(*body, vt)),
            catches: narrowing_cast_catches(catches, vt),
            finally: narrowing_cast_opt(finally, vt),
        },
        StmtV::Synchronized { lock, body } => StmtV::Synchronized {
            lock,
            body: Box::new(narrowing_cast(*body, vt)),
        },
        StmtV::Labeled { label, body } => StmtV::Labeled {
            label,
            body: Box::new(narrowing_cast(*body, vt)),
        },
        _ => s,
    }
}

/// [`narrowing_cast`] where there is a value.
pub open spec fn narrowing_cast_opt(o: Option<Box<StmtV>>, vt: VarTableV) -> Option<Box<StmtV>>
    decreases o,
{
    match o {
        Some(x) => Some(Box::new(narrowing_cast(*x, vt))),
        None => None,
    }
}

/// [`narrowing_cast`] over a list.
pub open spec fn narrowing_cast_seq(v: Seq<StmtV>, vt: VarTableV) -> Seq<StmtV>
    decreases v,
{
    Seq::new(
        v.len(),
        |i: int| if 0 <= i < v.len() { narrowing_cast(v[i], vt) } else { arbitrary() },
    )
}

/// [`narrowing_cast`] inside a switch arm.
pub open spec fn narrowing_cast_case(c: CaseGroupV, vt: VarTableV) -> CaseGroupV
    decreases c,
{
    CaseGroupV { body: narrowing_cast_seq(c.body, vt), ..c }
}

/// [`narrowing_cast`] over a list.
pub open spec fn narrowing_cast_cases(v: Seq<CaseGroupV>, vt: VarTableV) -> Seq<CaseGroupV>
    decreases v,
{
    Seq::new(
        v.len(),
        |i: int| if 0 <= i < v.len() { narrowing_cast_case(v[i], vt) } else { arbitrary() },
    )
}

/// [`narrowing_cast`] inside a catch clause.
pub open spec fn narrowing_cast_catch(c: CatchV, vt: VarTableV) -> CatchV
    decreases c,
{
    CatchV { body: Box::new(narrowing_cast(*c.body, vt)), ..c }
}

/// [`narrowing_cast`] over a list.
pub open spec fn narrowing_cast_catches(v: Seq<CatchV>, vt: VarTableV) -> Seq<CatchV>
    decreases v,
{
    Seq::new(
        v.len(),
        |i: int| if 0 <= i < v.len() { narrowing_cast_catch(v[i], vt) } else { arbitrary() },
    )
}

/// Casts `int` values that are given to `byte`, `short` and `char` targets.
pub fn cast_narrowing_assigns(s: &mut Stmt, vt: &VarTable)
    ensures
        final(s)@ == narrowing_cast(old(s)@, vt@),
    decreases *old(s),
{
    match s {
        Stmt::Block(items) => { cast_narrowing_assigns_vec(items, vt); },
        Stmt::ExprStmt(e) => fix_assign(e, vt),
        Stmt::LocalDef { var, init, .. } => {
            if let Some(e) = init { fix_narrow(e, &vt.var_type(*var).erased()); }
        },
        Stmt::If { then_stmt, else_stmt, .. } => {
            cast_narrowing_assigns(then_stmt, vt);
            cast_narrowing_assigns_opt(else_stmt, vt);
        },
        Stmt::While { body, .. } => { cast_narrowing_assigns(body, vt); },
        Stmt::DoWhile { body, .. } => { cast_narrowing_assigns(body, vt); },
        Stmt::For { init, body, .. } => {
            cast_narrowing_assigns_vec(init, vt);
            cast_narrowing_assigns(body, vt);
        },
        Stmt::ForEach { body, .. } => { cast_narrowing_assigns(body, vt); },
        Stmt::Switch { cases, default, .. } => {
            cast_narrowing_assigns_cases(cases, vt);
            cast_narrowing_assigns_opt(default, vt);
        },
        Stmt::Try { body, catches, finally } => {
            cast_narrowing_assigns(body, vt);
            cast_narrowing_assigns_catches(catches, vt);
            cast_narrowing_assigns_opt(finally, vt);
        },
        Stmt::TryWithResources { resources, body, catches, finally } => {
            cast_narrowing_assigns_vec(resources, vt);
            cast_narrowing_assigns(body, vt);
            cast_narrowing_assigns_catches(catches, vt);
            cast_narrowing_assigns_opt(finally, vt);
        },
        Stmt::Synchronized { body, .. } => { cast_narrowing_assigns(body, vt); },
        Stmt::Labeled { body, .. } => { cast_narrowing_assigns(body, vt); },
        _ => {},
    }
}

/// `cast_narrowing_assigns` where there is a value.
pub fn cast_narrowing_assigns_opt(o: &mut Option<Box<Stmt>>, vt: &VarTable)
    ensures
        opt_stmt(*final(o)) == narrowing_cast_opt(opt_stmt(*old(o)), vt@),
    decreases *old(o),
{
    if let Some(x) = o {
        cast_narrowing_assigns(x, vt);
    }
}

/// `cast_narrowing_assigns` over a list.
#[verifier::loop_isolation(false)]
pub fn cast_narrowing_assigns_vec(v: &mut Vec<Stmt>, vt: &VarTable)
    ensures
        stmts(final(v)@) == narrowing_cast_seq(stmts(old(v)@), vt@),
    decreases *old(v),
{
    let mut i: usize = 0;
    while i < v.len()
        invariant
            i <= v.len(),
            v.len() == old(v).len(),
            forall|j: int| 0 <= j < i ==> (#[trigger] v@[j])@ == narrowing_cast(old(v)@[j]@, vt@),
            forall|j: int| i <= j < v.len() ==> #[trigger] v@[j] == old(v)@[j],
        decreases v.len() - i,
    {
        assert(decreases_to!(*old(v) => v@[i as int]));
        cast_narrowing_assigns(&mut v[i], vt);
        i += 1;
    }
    assert(stmts(v@) =~= narrowing_cast_seq(stmts(old(v)@), vt@));
}

/// `cast_narrowing_assigns` inside a switch arm.
pub fn cast_narrowing_assigns_case(c: &mut CaseGroup, vt: &VarTable)
    ensures
        final(c)@ == narrowing_cast_case(old(c)@, vt@),
    decreases *old(c),
{
    cast_narrowing_assigns_vec(&mut c.body, vt);
}

/// `cast_narrowing_assigns` over a list.
#[verifier::loop_isolation(false)]
pub fn cast_narrowing_assigns_cases(v: &mut Vec<CaseGroup>, vt: &VarTable)
    ensures
        case_groups(final(v)@) == narrowing_cast_cases(case_groups(old(v)@), vt@),
    decreases *old(v),
{
    let mut i: usize = 0;
    while i < v.len()
        invariant
            i <= v.len(),
            v.len() == old(v).len(),
            forall|j: int|
                0 <= j < i ==> (#[trigger] v@[j])@ == narrowing_cast_case(old(v)@[j]@, vt@),
            forall|j: int| i <= j < v.len() ==> #[trigger] v@[j] == old(v)@[j],
        decreases v.len() - i,
    {
        assert(decreases_to!(*old(v) => v@[i as int]));
        cast_narrowing_assigns_case(&mut v[i], vt);
        i += 1;
    }
    assert(case_groups(v@) =~= narrowing_cast_cases(case_groups(old(v)@), vt@));
}

/// `cast_narrowing_assigns` inside a catch clause.
pub fn cast_narrowing_assigns_catch(c: &mut Catch, vt: &VarTable)
    ensures
        final(c)@ == narrowing_cast_catch(old(c)@, vt@),
    decreases *old(c),
{
    cast_narrowing_assigns(&mut c.body, vt);
}

/// `cast_narrowing_assigns` over a list.
#[verifier::loop_isolation(false)]
pub fn cast_narrowing_assigns_catches(v: &mut Vec<Catch>, vt: &VarTable)
    ensures
        catch_list(final(v)@) == narrowing_cast_catches(catch_list(old(v)@), vt@),
    decreases *old(v),
{
    let mut i: usize = 0;
    while i < v.len()
        invariant
            i <= v.len(),
            v.len() == old(v).len(),
            forall|j: int|
                0 <= j < i ==> (#[trigger] v@[j])@ == narrowing_cast_catch(old(v)@[j]@, vt@),
            forall|j: int| i <= j < v.len() ==> #[trigger] v@[j] == old(v)@[j],
        decreases v.len() - i,
    {
        assert(decreases_to!(*old(v) => v@[i as int]));
        cast_narrowing_assigns_catch(&mut v[i], vt);
        i += 1;
    }
    assert(catch_list(v@) =~= narrowing_cast_catches(catch_list(old(v)@), vt@));
}

/// A returned value of type `Object`: accesses and calls are cast to `want`.
pub open spec fn return_cast(e: ExprV, want: JTypeV) -> ExprV {
    if (e is Local || e is Method || e is Field || e is ArrayIndex) && type_of(e) == TypeRefV::J(
        object_type(),
    ) {
        cast_to(want, e)
    } else {
        e
    }
}

/// [`return_cast`] where there is a value.
pub open spec fn return_cast_oexpr(o: Option<ExprV>, want: JTypeV) -> Option<ExprV> {
    match o {
        Some(e) => Some(return_cast(e, want)),
        None => None,
    }
}

/// Casts a returned value of type `Object`.
fn fix_return(e: &mut Expr, want: &JType)
    ensures
        final(e)@ == return_cast(old(e)@, want@),
{
    if matches!(
        e,
        Expr::Local { .. } | Expr::Method { .. } | Expr::Field { .. } | Expr::ArrayIndex { .. }
    ) {
        let plain = match e.type_ref() {
            TypeRef::J(t) => t.is_object("java/lang/Object"),
            TypeRef::G(_) => false,
        };
        if plain {
            wrap_cast(e, want);
        }
    }
}

/// `fix_return` where there is a value.
fn fix_return_oexpr(o: &mut Option<Expr>, want: &JType)
    ensures
        opt_expr(*final(o)) == return_cast_oexpr(opt_expr(*old(o)), want@),
{
    if let Some(e) = o {
        fix_return(e, want);
    }
}

/// `s` with returned values of type `Object` cast to `want`.
pub open spec fn returns_cast(s: StmtV, want: JTypeV) -> StmtV
    decreases s,
{
    match s {
        StmtV::Block(items) => StmtV::Block(returns_cast_seq(items, want)),
        StmtV::Return(e) => StmtV::Return(return_cast_oexpr(e, want)),
        StmtV::If { cond, then_stmt, else_stmt } => StmtV::If {
            cond,
            then_stmt: Box::new(returns_cast(*then_stmt, want)),
            else_stmt: returns_cast_opt(else_stmt, want),
        },
        StmtV::While { cond, body } => StmtV::While {
            cond,
            body: Box::new(returns_cast(*body, want)),
        },
        StmtV::DoWhile { body, cond } => StmtV::DoWhile {
            body: Box::new(returns_cast(*body, want)),
            cond,
        },
        StmtV::For { init, cond, update, body } => StmtV::For {
            init: returns_cast_seq(init, want),
            cond,
            update,
            body: Box::new(returns_cast(*body, want)),
        },
        StmtV::ForEach { var, iterable, is_array, body } => StmtV::ForEach {
            var,
            iterable,
            is_array,
            body: Box::new(returns_cast(*body, want)),
        },
        StmtV::Switch { selector, cases, default, on_string } => StmtV::Switch {
            selector,
            cases: returns_cast_cases(cases, want),
            default: returns_cast_opt(default, want),
            on_string,
        },
        StmtV::Try { body, catches, finally } => StmtV::Try {
            body: Box::new(returns_cast(*body, want)),
            catches: returns_cast_catches(catches, want),
            finally: returns_cast_opt(finally, want),
        },
        StmtV::TryWithResources { resources, body, catches, finally } => StmtV::TryWithResources {
            resources: returns_cast_seq(resources, want),
            body: Box::new(returns_cast(*body, want)),
            catches: returns_cast_catches(catches, want),
            finally: returns_cast_opt(finally, want),
        },
        StmtV::Synchronized { lock, body } => StmtV::Synchronized {
            lock,
            body: Box::new(returns_cast(*body, want)),
        },
        StmtV::Labeled { label, body } => StmtV::Labeled {
            label,
            body: Box::new(returns_cast(*body, want)),
        },
        _ => s,
    }
}

/// [`returns_cast`] where there is a value.
pub open spec fn returns_cast_opt(o: Option<Box<StmtV>>, want: JTypeV) -> Option<Box<StmtV>>
    decreases o,
{
    match o {
        Some(x) => Some(Box::new(returns_cast(*x, want))),
        None => None,
    }
}

/// [`returns_cast`] over a list.
pub open spec fn returns_cast_seq(v: Seq<StmtV>, want: JTypeV) -> Seq<StmtV>
    decreases v,
{
    Seq::new(
        v.len(),
        |i: int| if 0 <= i < v.len() { returns_cast(v[i], want) } else { arbitrary() },
    )
}

/// [`returns_cast`] inside a switch arm.
pub open spec fn returns_cast_case(c: CaseGroupV, want: JTypeV) -> CaseGroupV
    decreases c,
{
    CaseGroupV { body: returns_cast_seq(c.body, want), ..c }
}

/// [`returns_cast`] over a list.
pub open spec fn returns_cast_cases(v: Seq<CaseGroupV>, want: JTypeV) -> Seq<CaseGroupV>
    decreases v,
{
    Seq::new(
        v.len(),
        |i: int| if 0 <= i < v.len() { returns_cast_case(v[i], want) } else { arbitrary() },
    )
}

/// [`returns_cast`] inside a catch clause.
pub open spec fn returns_cast_catch(c: CatchV, want: JTypeV) -> CatchV
    decreases c,
{
    CatchV { body: Box::new(returns_cast(*c.body, want)), ..c }
}

/// [`returns_cast`] over a list.
pub open spec fn returns_cast_catches(v: Seq<CatchV>, want: JTypeV) -> Seq<CatchV>
    decreases v,
{
    Seq::new(
        v.len(),
        |i: int| if 0 <= i < v.len() { returns_cast_catch(v[i], want) } else { arbitrary() },
    )
}

/// Casts the returned values of type `Object` in `s` to `want`.
pub fn cast_returns(s: &mut Stmt, want: &JType)
    ensures
        final(s)@ == returns_cast(old(s)@, want@),
    decreases *old(s),
{
    match s {
        Stmt::Block(items) => { cast_returns_vec(items, want); },
        Stmt::Return(e) => { fix_return_oexpr(e, want); },
        Stmt::If { then_stmt, else_stmt, .. } => {
            cast_returns(then_stmt, want);
            cast_returns_opt(else_stmt, want);
        },
        Stmt::While { body, .. } => { cast_returns(body, want); },
        Stmt::DoWhile { body, .. } => { cast_returns(body, want); },
        Stmt::For { init, body, .. } => { cast_returns_vec(init, want); cast_returns(body, want); },
        Stmt::ForEach { body, .. } => { cast_returns(body, want); },
        Stmt::Switch { cases, default, .. } => {
            cast_returns_cases(cases, want);
            cast_returns_opt(default, want);
        },
        Stmt::Try { body, catches, finally } => {
            cast_returns(body, want);
            cast_returns_catches(catches, want);
            cast_returns_opt(finally, want);
        },
        Stmt::TryWithResources { resources, body, catches, finally } => {
            cast_returns_vec(resources, want);
            cast_returns(body, want);
            cast_returns_catches(catches, want);
            cast_returns_opt(finally, want);
        },
        Stmt::Synchronized { body, .. } => { cast_returns(body, want); },
        Stmt::Labeled { body, .. } => { cast_returns(body, want); },
        _ => {},
    }
}

/// `cast_returns` where there is a value.
pub fn cast_returns_opt(o: &mut Option<Box<Stmt>>, want: &JType)
    ensures
        opt_stmt(*final(o)) == returns_cast_opt(opt_stmt(*old(o)), want@),
    decreases *old(o),
{
    if let Some(x) = o {
        cast_returns(x, want);
    }
}

/// `cast_returns` over a list.
#[verifier::loop_isolation(false)]
pub fn cast_returns_vec(v: &mut Vec<Stmt>, want: &JType)
    ensures
        stmts(final(v)@) == returns_cast_seq(stmts(old(v)@), want@),
    decreases *old(v),
{
    let mut i: usize = 0;
    while i < v.len()
        invariant
            i <= v.len(),
            v.len() == old(v).len(),
            forall|j: int| 0 <= j < i ==> (#[trigger] v@[j])@ == returns_cast(old(v)@[j]@, want@),
            forall|j: int| i <= j < v.len() ==> #[trigger] v@[j] == old(v)@[j],
        decreases v.len() - i,
    {
        assert(decreases_to!(*old(v) => v@[i as int]));
        cast_returns(&mut v[i], want);
        i += 1;
    }
    assert(stmts(v@) =~= returns_cast_seq(stmts(old(v)@), want@));
}

/// `cast_returns` inside a switch arm.
pub fn cast_returns_case(c: &mut CaseGroup, want: &JType)
    ensures
        final(c)@ == returns_cast_case(old(c)@, want@),
    decreases *old(c),
{
    cast_returns_vec(&mut c.body, want);
}

/// `cast_returns` over a list.
#[verifier::loop_isolation(false)]
pub fn cast_returns_cases(v: &mut Vec<CaseGroup>, want: &JType)
    ensures
        case_groups(final(v)@) == returns_cast_cases(case_groups(old(v)@), want@),
    decreases *old(v),
{
    let mut i: usize = 0;
    while i < v.len()
        invariant
            i <= v.len(),
            v.len() == old(v).len(),
            forall|j: int|
                0 <= j < i ==> (#[trigger] v@[j])@ == returns_cast_case(old(v)@[j]@, want@),
            forall|j: int| i <= j < v.len() ==> #[trigger] v@[j] == old(v)@[j],
        decreases v.len() - i,
    {
        assert(decreases_to!(*old(v) => v@[i as int]));
        cast_returns_case(&mut v[i], want);
        i += 1;
    }
    assert(case_groups(v@) =~= returns_cast_cases(case_groups(old(v)@), want@));
}

/// `cast_returns` inside a catch clause.
pub fn cast_returns_catch(c: &mut Catch, want: &JType)
    ensures
        final(c)@ == returns_cast_catch(old(c)@, want@),
    decreases *old(c),
{
    cast_returns(&mut c.body, want);
}

/// `cast_returns` over a list.
#[verifier::loop_isolation(false)]
pub fn cast_returns_catches(v: &mut Vec<Catch>, want: &JType)
    ensures
        catch_list(final(v)@) == returns_cast_catches(catch_list(old(v)@), want@),
    decreases *old(v),
{
    let mut i: usize = 0;
    while i < v.len()
        invariant
            i <= v.len(),
            v.len() == old(v).len(),
            forall|j: int|
                0 <= j < i ==> (#[trigger] v@[j])@ == returns_cast_catch(old(v)@[j]@, want@),
            forall|j: int| i <= j < v.len() ==> #[trigger] v@[j] == old(v)@[j],
        decreases v.len() - i,
    {
        assert(decreases_to!(*old(v) => v@[i as int]));
        cast_returns_catch(&mut v[i], want);
        i += 1;
    }
    assert(catch_list(v@) =~= returns_cast_catches(catch_list(old(v)@), want@));
}

/// In a method that returns a class other than `Object`, or an array: casts the
/// returned values of type `Object` to the return type.
pub fn cast_object_returns(s: &mut Stmt, ret_ty: &JType)
    ensures
        final(s)@ == if (ret_ty@ is Object && ret_ty@ != object_type()) || ret_ty@ is Array {
            returns_cast(old(s)@, ret_ty@)
        } else {
            old(s)@
        },
{
    let wanted = match ret_ty {
        JType::Object(_) => !ret_ty.is_object("java/lang/Object"),
        JType::Array(_) => true,
        _ => false,
    };
    if wanted {
        cast_returns(s, ret_ty);
    }
}

} // verus!
