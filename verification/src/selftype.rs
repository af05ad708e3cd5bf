//! Removal of checked casts that a call's own class makes redundant.
use crate::classes::{
    class_name_at, method_desc, method_name, named, opt_is, pool_get, super_name, utf8_at,
    AttributeV, ClassPool, ClassPoolV, PoolClass, PoolClassV, leading_index, leading_u16,
    attributes, Member,
};
use crate::expr::{
    concat_parts, exprs, opt_box, opt_expr, opt_exprs, take_expr, ConcatPart, ConcatPartV, Expr,
    ExprV, LambdaExpr, LambdaExprV,
};
use crate::signatures::{parse_method_signature, parsed_method_signature};
use crate::stmt::{
    case_groups, catch_list, opt_stmt, stmts, CaseGroup, CaseGroupV, Catch, CatchV, Stmt, StmtV,
};
use crate::text::{contains_string, ends_with, has_suffix};
use crate::types::{strs, GType, JType, JTypeV, TypeRef, TypeRefV};
use vstd::prelude::*;

verus! {

/// The end of a descriptor that returns class `cls`.
pub open spec fn returns_suffix(cls: Seq<char>) -> Seq<char> {
    seq![')', 'L'] + cls + seq![';']
}

/// Attribute `a` is a method signature that returns a type variable.
pub open spec fn returns_type_var(pc: PoolClassV, a: AttributeV) -> bool {
    &&& named(pc, a, "Signature"@)
    &&& leading_index(a.info) matches Some(i)
    &&& utf8_at(pc, i) matches Some(text)
    &&& parsed_method_signature(text) matches Some(sig)
    &&& sig.ret is TypeVar
}

/// Method `mi` of `pc` is named `name` and returns `cls`, or (outside `cls` itself)
/// a type variable.
pub open spec fn method_returns(
    pc: PoolClassV,
    mi: int,
    visited: Seq<char>,
    cls: Seq<char>,
    name: Seq<char>,
) -> bool {
    &&& method_name(pc, mi) == Some(name)
    &&& {
        ||| method_desc(pc, mi) matches Some(d) && has_suffix(d, returns_suffix(cls))
        ||| visited != cls && exists|k: int|
            0 <= k < pc.methods[mi].attributes.len() && returns_type_var(
                pc,
                #[trigger] pc.methods[mi].attributes[k],
            )
    }
}

/// Some method of `pc` does.
pub open spec fn class_returns(
    pc: PoolClassV,
    visited: Seq<char>,
    cls: Seq<char>,
    name: Seq<char>,
) -> bool {
    exists|mi: int|
        0 <= mi < pc.methods.len() && #[trigger] method_returns(pc, mi, visited, cls, name)
}

/// Names of the first `n` interfaces, those that resolve.
pub open spec fn interface_names(pc: PoolClassV, n: nat) -> Seq<Seq<char>>
    decreases n,
{
    if n == 0 {
        seq![]
    } else {
        interface_names(pc, (n - 1) as nat) + match class_name_at(pc, pc.interfaces[n - 1]) {
            Some(name) => seq![name],
            None => seq![],
        }
    }
}

/// Superclass and interfaces.
pub open spec fn supertypes(pc: PoolClassV) -> Seq<Seq<char>> {
    (match super_name(pc) {
        Some(s) => seq![s],
        None => Seq::<Seq<char>>::empty(),
    }) + interface_names(pc, pc.interfaces.len())
}

/// The search for a class that returns `cls` from `name`: the last of `queue` is
/// visited next, its supertypes join the queue, no class is visited twice and at
/// most 65 are.
pub open spec fn finds_self_return(
    queue: Seq<Seq<char>>,
    seen: Seq<Seq<char>>,
    cls: Seq<char>,
    name: Seq<char>,
    pool: ClassPoolV,
) -> bool
    decreases 65 - seen.len(), queue.len(),
{
    if queue.len() == 0 {
        false
    } else {
        let c = queue.last();
        let rest = queue.drop_last();
        if seen.len() >= 65 || seen.contains(c) {
            finds_self_return(rest, seen, cls, name, pool)
        } else {
            match pool_get(pool, c) {
                None => finds_self_return(rest, seen.push(c), cls, name, pool),
                Some(pc) => class_returns(pc, c, cls, name) || finds_self_return(
                    rest + supertypes(pc),
                    seen.push(c),
                    cls,
                    name,
                    pool,
                ),
            }
        }
    }
}

/// `name` is declared, in `cls` or above it, to return `cls` itself or a type
/// variable.
pub open spec fn self_covariant(cls: Seq<char>, name: Seq<char>, pool: ClassPoolV) -> bool {
    finds_self_return(seq![cls], seq![], cls, name, pool)
}

/// A cast to the class that the called method belongs to, where the descriptor
/// returns something else and the method is self-covariant.
pub open spec fn redundant_cast(e: ExprV, pool: ClassPoolV) -> bool {
    match e {
        ExprV::Cast { ty, e } => match (*e, ty) {
            (ExprV::Method { cls, name, desc, .. }, TypeRefV::J(JTypeV::Object(x))) => x == cls
                && desc.ret != JTypeV::Object(cls) && self_covariant(cls, name, pool),
            _ => false,
        },
        _ => false,
    }
}

/// `e` without redundant casts, outside in.
pub open spec fn cast_stripped(e: ExprV, pool: ClassPoolV) -> ExprV
    decreases e, 1nat,
{
    match e {
        ExprV::Cast { e: inner, .. } => if redundant_cast(e, pool) {
            parts_stripped(*inner, pool)
        } else {
            parts_stripped(e, pool)
        },
        _ => parts_stripped(e, pool),
    }
}

/// [`cast_stripped`] where there is a value.
pub open spec fn cast_stripped_oexpr(o: Option<ExprV>, pool: ClassPoolV) -> Option<ExprV> {
    match o {
        Some(e) => Some(cast_stripped(e, pool)),
        None => None,
    }
}

/// [`cast_stripped`] over a list.
pub open spec fn cast_stripped_exprs(v: Seq<ExprV>, pool: ClassPoolV) -> Seq<ExprV> {
    parts_stripped_exprs(v, pool)
}

/// `e` with [`cast_stripped`] operands.
pub open spec fn parts_stripped(e: ExprV, pool: ClassPoolV) -> ExprV
    decreases e, 0nat,
{
    match e {
        ExprV::Const(c) => ExprV::Const(c),
        ExprV::Local { var, ty } => ExprV::Local { var, ty },
        ExprV::This => ExprV::This,
        ExprV::New { cls, ty, args, raw } => ExprV::New {
            cls,
            ty,
            args: parts_stripped_exprs(args, pool),
            raw,
        },
        ExprV::NewArray { elem, dims, trailing_dims, init } => ExprV::NewArray {
            elem,
            dims: parts_stripped_exprs(dims, pool),
            trailing_dims,
            init: parts_stripped_oexprs(init, pool),
        },
        ExprV::NewMultiArray { ty, dims } => ExprV::NewMultiArray {
            ty,
            dims: parts_stripped_exprs(dims, pool),
        },
        ExprV::Field { owner, cls, name, ty, is_static } => ExprV::Field {
            owner: parts_stripped_opt(owner, pool),
            cls,
            name,
            ty,
            is_static,
        },
        ExprV::Method {
            owner,
            cls,
            name,
            desc,
            args,
            is_static,
            is_interface,
            is_special,
            is_super,
            is_dynamic,
            type_args,
        } => ExprV::Method {
            owner: parts_stripped_opt(owner, pool),
            cls,
            name,
            desc,
            args: parts_stripped_exprs(args, pool),
            is_static,
            is_interface,
            is_special,
            is_super,
            is_dynamic,
            type_args,
        },
        ExprV::ArrayIndex { array, index } => ExprV::ArrayIndex {
            array: Box::new(cast_stripped(*array, pool)),
            index: Box::new(cast_stripped(*index, pool)),
        },
        ExprV::Cast { ty, e } => ExprV::Cast { ty, e: Box::new(cast_stripped(*e, pool)) },
        ExprV::InstanceOf { e, ty } => ExprV::InstanceOf {
            e: Box::new(cast_stripped(*e, pool)),
            ty,
        },
        ExprV::Un { op, e } => ExprV::Un { op, e: Box::new(cast_stripped(*e, pool)) },
        ExprV::Bin { op, l, r, ty } => ExprV::Bin {
            op,
            l: Box::new(cast_stripped(*l, pool)),
            r: Box::new(cast_stripped(*r, pool)),
            ty,
        },
        ExprV::Cond { c, t, f } => ExprV::Cond {
            c: Box::new(cast_stripped(*c, pool)),
            t: Box::new(cast_stripped(*t, pool)),
            f: Box::new(cast_stripped(*f, pool)),
        },
        ExprV::Assign { target, op, value } => ExprV::Assign {
            target: Box::new(cast_stripped(*target, pool)),
            op,
            value: Box::new(cast_stripped(*value, pool)),
        },
        ExprV::PreIncDec { e, delta, wide } => ExprV::PreIncDec {
            e: Box::new(cast_stripped(*e, pool)),
            delta,
            wide,
        },
        ExprV::PostIncDec { e, delta, wide } => ExprV::PostIncDec {
            e: Box::new(cast_stripped(*e, pool)),
            delta,
            wide,
        },
        ExprV::Lambda(l) => ExprV::Lambda(Box::new(parts_stripped_captures(*l, pool))),
        ExprV::StringConcat(parts) => ExprV::StringConcat(parts_stripped_parts(parts, pool)),
        ExprV::Raw(text) => ExprV::Raw(text),
        ExprV::RawT(text, ty) => ExprV::RawT(text, ty),
        ExprV::Invokedynamic {
            name,
            desc,
            args,
            bsm_text,
            bsm_static_args,
        } => ExprV::Invokedynamic {
            name,
            desc,
            args: parts_stripped_exprs(args, pool),
            bsm_text,
            bsm_static_args,
        },
        ExprV::AnonNew { cls, base, args, body } => ExprV::AnonNew {
            cls,
            base,
            args: parts_stripped_exprs(args, pool),
            body,
        },
    }
}

/// [`parts_stripped`] where there is a value.
pub open spec fn parts_stripped_opt(o: Option<Box<ExprV>>, pool: ClassPoolV) -> Option<Box<ExprV>>
    decreases o, 0nat,
{
    match o {
        Some(x) => Some(Box::new(cast_stripped(*x, pool))),
        None => None,
    }
}

/// [`parts_stripped`] where there is a value.
pub open spec fn parts_stripped_oexprs(
    o: Option<Seq<ExprV>>,
    pool: ClassPoolV,
) -> Option<Seq<ExprV>>
    decreases o, 0nat,
{
    match o {
        Some(x) => Some(parts_stripped_exprs(x, pool)),
        None => None,
    }
}

/// [`parts_stripped`] inside the captures of a lambda.
pub open spec fn parts_stripped_captures(l: LambdaExprV, pool: ClassPoolV) -> LambdaExprV
    decreases l, 0nat,
{
    LambdaExprV { captures: parts_stripped_exprs(l.captures, pool), ..l }
}

/// [`parts_stripped`] over a list.
pub open spec fn parts_stripped_exprs(v: Seq<ExprV>, pool: ClassPoolV) -> Seq<ExprV>
    decreases v, 0nat,
{
    Seq::new(
        v.len(),
        |i: int| if 0 <= i < v.len() { cast_stripped(v[i], pool) } else { arbitrary() },
    )
}

/// [`parts_stripped`] inside a concatenation piece.
pub open spec fn parts_stripped_part(p: ConcatPartV, pool: ClassPoolV) -> ConcatPartV
    decreases p, 0nat,
{
    match p {
        ConcatPartV::Str(e) => ConcatPartV::Str(cast_stripped(e, pool)),
        ConcatPartV::Const(_) => p,
    }
}

/// [`parts_stripped`] over a list.
pub open spec fn parts_stripped_parts(v: Seq<ConcatPartV>, pool: ClassPoolV) -> Seq<ConcatPartV>
    decreases v, 0nat,
{
    Seq::new(
        v.len(),
        |i: int| if 0 <= i < v.len() { parts_stripped_part(v[i], pool) } else { arbitrary() },
    )
}

/// Strips redundant casts from the operands of `e`.
pub fn fix_children(e: &mut Expr, pool: &ClassPool)
    ensures
        final(e)@ == parts_stripped(old(e)@, pool@),
    decreases *old(e), 0nat,
{
    match e {
        Expr::Const(_) => {  },
        Expr::Local { .. } => {  },
        Expr::This => {  },
        Expr::New { args, .. } => { fix_children_exprs(args, pool); },
        Expr::NewArray { dims, init, .. } => {
            fix_children_exprs(dims, pool);
            fix_children_oexprs(init, pool);
        },
        Expr::NewMultiArray { dims, .. } => { fix_children_exprs(dims, pool); },
        Expr::Field { owner, .. } => { fix_children_opt(owner, pool); },
        Expr::Method { owner, args, .. } => {
            fix_children_opt(owner, pool);
            fix_children_exprs(args, pool);
        },
        Expr::ArrayIndex { array, index } => { fix_expr(array, pool); fix_expr(index, pool); },
        Expr::Cast { e, .. } => { fix_expr(e, pool); },
        Expr::InstanceOf { e, .. } => { fix_expr(e, pool); },
        Expr::Un { e, .. } => { fix_expr(e, pool); },
        Expr::Bin { l, r, .. } => { fix_expr(l, pool); fix_expr(r, pool); },
        Expr::Cond { c, t, f } => { fix_expr(c, pool); fix_expr(t, pool); fix_expr(f, pool); },
        Expr::Assign { target, value, .. } => { fix_expr(target, pool); fix_expr(value, pool); },
        Expr::PreIncDec { e, .. } => { fix_expr(e, pool); },
        Expr::PostIncDec { e, .. } => { fix_expr(e, pool); },
        Expr::Lambda(l) => { fix_children_captures(l, pool); },
        Expr::StringConcat(parts) => { fix_children_parts(parts, pool); },
        Expr::Raw(_) => {  },
        Expr::RawT(_, _) => {  },
        Expr::Invokedynamic { args, .. } => { fix_children_exprs(args, pool); },
        Expr::AnonNew { args, .. } => { fix_children_exprs(args, pool); },
    }
}

/// `fix_children` where there is a value.
pub fn fix_children_opt(o: &mut Option<Box<Expr>>, pool: &ClassPool)
    ensures
        opt_box(*final(o)) == parts_stripped_opt(opt_box(*old(o)), pool@),
    decreases *old(o), 0nat,
{
    if let Some(x) = o {
        fix_expr(x, pool);
    }
}

/// `fix_children` where there is a value.
pub fn fix_children_oexprs(o: &mut Option<Vec<Expr>>, pool: &ClassPool)
    ensures
        opt_exprs(*final(o)) == parts_stripped_oexprs(opt_exprs(*old(o)), pool@),
    decreases *old(o), 0nat,
{
    if let Some(x) = o {
        fix_children_exprs(x, pool);
    }
}

/// `fix_children` inside the captures of a lambda.
pub fn fix_children_captures(l: &mut LambdaExpr, pool: &ClassPool)
    ensures
        final(l)@ == parts_stripped_captures(old(l)@, pool@),
    decreases *old(l), 0nat,
{
    fix_children_exprs(&mut l.captures, pool);
}

/// `fix_children` over a list.
#[verifier::loop_isolation(false)]
pub fn fix_children_exprs(v: &mut Vec<Expr>, pool: &ClassPool)
    ensures
        exprs(final(v)@) == parts_stripped_exprs(exprs(old(v)@), pool@),
    decreases *old(v), 0nat,
{
    let mut i: usize = 0;
    while i < v.len()
        invariant
            i <= v.len(),
            v.len() == old(v).len(),
            forall|j: int| 0 <= j < i ==> (#[trigger] v@[j])@ == cast_stripped(old(v)@[j]@, pool@),
            forall|j: int| i <= j < v.len() ==> #[trigger] v@[j] == old(v)@[j],
        decreases v.len() - i,
    {
        assert(decreases_to!(*old(v) => v@[i as int]));
        fix_expr(&mut v[i], pool);
        i += 1;
    }
    assert(exprs(v@) =~= parts_stripped_exprs(exprs(old(v)@), pool@));
}

/// `fix_children` inside a concatenation piece.
pub fn fix_children_part(p: &mut ConcatPart, pool: &ClassPool)
    ensures
        final(p)@ == parts_stripped_part(old(p)@, pool@),
    decreases *old(p), 0nat,
{
    match p {
        ConcatPart::Str(e) => fix_expr(e, pool),
        ConcatPart::Const(_) => {},
    }
}

/// `fix_children` over a list.
#[verifier::loop_isolation(false)]
pub fn fix_children_parts(v: &mut Vec<ConcatPart>, pool: &ClassPool)
    ensures
        concat_parts(final(v)@) == parts_stripped_parts(concat_parts(old(v)@), pool@),
    decreases *old(v), 0nat,
{
    let mut i: usize = 0;
    while i < v.len()
        invariant
            i <= v.len(),
            v.len() == old(v).len(),
            forall|j: int|
                0 <= j < i ==> (#[trigger] v@[j])@ == parts_stripped_part(old(v)@[j]@, pool@),
            forall|j: int| i <= j < v.len() ==> #[trigger] v@[j] == old(v)@[j],
        decreases v.len() - i,
    {
        assert(decreases_to!(*old(v) => v@[i as int]));
        fix_children_part(&mut v[i], pool);
        i += 1;
    }
    assert(concat_parts(v@) =~= parts_stripped_parts(concat_parts(old(v)@), pool@));
}

/// `s` without redundant casts.
pub open spec fn selftype_stripped(s: StmtV, pool: ClassPoolV) -> StmtV
    decreases s,
{
    match s {
        StmtV::Block(items) => StmtV::Block(selftype_stripped_seq(items, pool)),
        StmtV::ExprStmt(e) => StmtV::ExprStmt(cast_stripped(e, pool)),
        StmtV::LocalDef { var, init, is_final, force_type } => StmtV::LocalDef {
            var,
            init: cast_stripped_oexpr(init, pool),
            is_final,
            force_type,
        },
        StmtV::Return(e) => StmtV::Return(cast_stripped_oexpr(e, pool)),
        StmtV::Throw(e) => StmtV::Throw(cast_stripped(e, pool)),
        StmtV::If { cond, then_stmt, else_stmt } => StmtV::If {
            cond: cast_stripped(cond, pool),
            then_stmt: Box::new(selftype_stripped(*then_stmt, pool)),
            else_stmt: selftype_stripped_opt(else_stmt, pool),
        },
        StmtV::While { cond, body } => StmtV::While {
            cond: cast_stripped(cond, pool),
            body: Box::new(selftype_stripped(*body, pool)),
        },
        StmtV::DoWhile { body, cond } => StmtV::DoWhile {
            body: Box::new(selftype_stripped(*body, pool)),
            cond: cast_stripped(cond, pool),
        },
        StmtV::For { init, cond, update, body } => StmtV::For {
            init: selftype_stripped_seq(init, pool),
            cond: cast_stripped_oexpr(cond, pool),
            update: cast_stripped_exprs(update, pool),
            body: Box::new(selftype_stripped(*body, pool)),
        },
        StmtV::ForEach { var, iterable, is_array, body } => StmtV::ForEach {
            var,
            iterable: cast_stripped(iterable, pool),
            is_array,
            body: Box::new(selftype_stripped(*body, pool)),
        },
        StmtV::Switch { selector, cases, default, on_string } => StmtV::Switch {
            selector: cast_stripped(selector, pool),
            cases: selftype_stripped_cases(cases, pool),
            default: selftype_stripped_opt(default, pool),
            on_string,
        },
        StmtV::Try { body, catches, finally } => StmtV::Try {
            body: Box::new(selftype_stripped(*body, pool)),
            catches: selftype_stripped_catches(catches, pool),
            finally: selftype_stripped_opt(finally, pool),
        },
        StmtV::TryWithResources { resources, body, catches, finally } => StmtV::TryWithResources {
            resources: selftype_stripped_seq(resources, pool),
            body: Box::new(selftype_stripped(*body, pool)),
            catches: selftype_stripped_catches(catches, pool),
            finally: selftype_stripped_opt(finally, pool),
        },
        StmtV::Assert { cond, msg } => StmtV::Assert {
            cond: cast_stripped(cond, pool),
            msg: cast_stripped_oexpr(msg, pool),
        },
        StmtV::Synchronized { lock, body } => StmtV::Synchronized {
            lock: cast_stripped(lock, pool),
            body: Box::new(selftype_stripped(*body, pool)),
        },
        StmtV::TernaryValue { e } => StmtV::TernaryValue { e: cast_stripped(e, pool) },
        StmtV::MonitorEnter(e) => StmtV::MonitorEnter(cast_stripped(e, pool)),
        StmtV::MonitorExit(e) => StmtV::MonitorExit(cast_stripped(e, pool)),
        StmtV::Label(n) => StmtV::Label(n),
        StmtV::Goto(n) => StmtV::Goto(n),
        StmtV::ClassDecl { name, header, body } => StmtV::ClassDecl { name, header, body },
        StmtV::Labeled { label, body } => StmtV::Labeled {
            label,
            body: Box::new(selftype_stripped(*body, pool)),
        },
        StmtV::Break(label) => StmtV::Break(label),
        StmtV::Continue(label) => StmtV::Continue(label),
        StmtV::Comment(text) => StmtV::Comment(text),
    }
}

/// [`selftype_stripped`] where there is a value.
pub open spec fn selftype_stripped_opt(
    o: Option<Box<StmtV>>,
    pool: ClassPoolV,
) -> Option<Box<StmtV>>
    decreases o,
{
    match o {
        Some(x) => Some(Box::new(selftype_stripped(*x, pool))),
        None => None,
    }
}

/// [`selftype_stripped`] over a list.
pub open spec fn selftype_stripped_seq(v: Seq<StmtV>, pool: ClassPoolV) -> Seq<StmtV>
    decreases v,
{
    Seq::new(
        v.len(),
        |i: int| if 0 <= i < v.len() { selftype_stripped(v[i], pool) } else { arbitrary() },
    )
}

/// [`selftype_stripped`] inside a switch arm.
pub open spec fn selftype_stripped_case(c: CaseGroupV, pool: ClassPoolV) -> CaseGroupV
    decreases c,
{
    CaseGroupV { body: selftype_stripped_seq(c.body, pool), ..c }
}

/// [`selftype_stripped`] over a list.
pub open spec fn selftype_stripped_cases(v: Seq<CaseGroupV>, pool: ClassPoolV) -> Seq<CaseGroupV>
    decreases v,
{
    Seq::new(
        v.len(),
        |i: int| if 0 <= i < v.len() { selftype_stripped_case(v[i], pool) } else { arbitrary() },
    )
}

/// [`selftype_stripped`] inside a catch clause.
pub open spec fn selftype_stripped_catch(c: CatchV, pool: ClassPoolV) -> CatchV
    decreases c,
{
    CatchV { body: Box::new(selftype_stripped(*c.body, pool)), ..c }
}

/// [`selftype_stripped`] over a list.
pub open spec fn selftype_stripped_catches(v: Seq<CatchV>, pool: ClassPoolV) -> Seq<CatchV>
    decreases v,
{
    Seq::new(
        v.len(),
        |i: int| if 0 <= i < v.len() { selftype_stripped_catch(v[i], pool) } else { arbitrary() },
    )
}

/// Drops every cast to the class that owns the called method where that method
/// is declared to return its own class: the cast is an artefact of erasure.
pub fn strip_selftype_checkcasts(s: &mut Stmt, pool: &ClassPool)
    ensures
        final(s)@ == selftype_stripped(old(s)@, pool@),
    decreases *old(s),
{
    match s {
        Stmt::Block(items) => { strip_selftype_checkcasts_vec(items, pool); },
        Stmt::ExprStmt(e) => { fix_expr(e, pool); },
        Stmt::LocalDef { init, .. } => { fix_expr_oexpr(init, pool); },
        Stmt::Return(e) => { fix_expr_oexpr(e, pool); },
        Stmt::Throw(e) => { fix_expr(e, pool); },
        Stmt::If { cond, then_stmt, else_stmt } => {
            fix_expr(cond, pool);
            strip_selftype_checkcasts(then_stmt, pool);
            strip_selftype_checkcasts_opt(else_stmt, pool);
        },
        Stmt::While { cond, body } => {
            fix_expr(cond, pool);
            strip_selftype_checkcasts(body, pool);
        },
        Stmt::DoWhile { body, cond } => {
            strip_selftype_checkcasts(body, pool);
            fix_expr(cond, pool);
        },
        Stmt::For { init, cond, update, body } => {
            strip_selftype_checkcasts_vec(init, pool);
            fix_expr_oexpr(cond, pool);
            fix_expr_exprs(update, pool);
            strip_selftype_checkcasts(body, pool);
        },
        Stmt::ForEach { iterable, body, .. } => {
            fix_expr(iterable, pool);
            strip_selftype_checkcasts(body, pool);
        },
        Stmt::Switch { selector, cases, default, .. } => {
            fix_expr(selector, pool);
            strip_selftype_checkcasts_cases(cases, pool);
            strip_selftype_checkcasts_opt(default, pool);
        },
        Stmt::Try { body, catches, finally } => {
            strip_selftype_checkcasts(body, pool);
            strip_selftype_checkcasts_catches(catches, pool);
            strip_selftype_checkcasts_opt(finally, pool);
        },
        Stmt::TryWithResources { resources, body, catches, finally } => {
            strip_selftype_checkcasts_vec(resources, pool);
            strip_selftype_checkcasts(body, pool);
            strip_selftype_checkcasts_catches(catches, pool);
            strip_selftype_checkcasts_opt(finally, pool);
        },
        Stmt::Assert { cond, msg } => { fix_expr(cond, pool); fix_expr_oexpr(msg, pool); },
        Stmt::Synchronized { lock, body } => {
            fix_expr(lock, pool);
            strip_selftype_checkcasts(body, pool);
        },
        Stmt::TernaryValue { e } => { fix_expr(e, pool); },
        Stmt::MonitorEnter(e) => { fix_expr(e, pool); },
        Stmt::MonitorExit(e) => { fix_expr(e, pool); },
        Stmt::Label(_) => {  },
        Stmt::Goto(_) => {  },
        Stmt::ClassDecl { .. } => {  },
        Stmt::Labeled { body, .. } => { strip_selftype_checkcasts(body, pool); },
        Stmt::Break(_) => {  },
        Stmt::Continue(_) => {  },
        Stmt::Comment(_) => {  },
    }
}

/// `strip_selftype_checkcasts` where there is a value.
pub fn strip_selftype_checkcasts_opt(o: &mut Option<Box<Stmt>>, pool: &ClassPool)
    ensures
        opt_stmt(*final(o)) == selftype_stripped_opt(opt_stmt(*old(o)), pool@),
    decreases *old(o),
{
    if let Some(x) = o {
        strip_selftype_checkcasts(x, pool);
    }
}

/// `strip_selftype_checkcasts` over a list.
#[verifier::loop_isolation(false)]
pub fn strip_selftype_checkcasts_vec(v: &mut Vec<Stmt>, pool: &ClassPool)
    ensures
        stmts(final(v)@) == selftype_stripped_seq(stmts(old(v)@), pool@),
    decreases *old(v),
{
    let mut i: usize = 0;
    while i < v.len()
        invariant
            i <= v.len(),
            v.len() == old(v).len(),
            forall|j: int|
                0 <= j < i ==> (#[trigger] v@[j])@ == selftype_stripped(old(v)@[j]@, pool@),
            forall|j: int| i <= j < v.len() ==> #[trigger] v@[j] == old(v)@[j],
        decreases v.len() - i,
    {
        assert(decreases_to!(*old(v) => v@[i as int]));
        strip_selftype_checkcasts(&mut v[i], pool);
        i += 1;
    }
    assert(stmts(v@) =~= selftype_stripped_seq(stmts(old(v)@), pool@));
}

/// `strip_selftype_checkcasts` inside a switch arm.
pub fn strip_selftype_checkcasts_case(c: &mut CaseGroup, pool: &ClassPool)
    ensures
        final(c)@ == selftype_stripped_case(old(c)@, pool@),
    decreases *old(c),
{
    strip_selftype_checkcasts_vec(&mut c.body, pool);
}

/// `strip_selftype_checkcasts` over a list.
#[verifier::loop_isolation(false)]
pub fn strip_selftype_checkcasts_cases(v: &mut Vec<CaseGroup>, pool: &ClassPool)
    ensures
        case_groups(final(v)@) == selftype_stripped_cases(case_groups(old(v)@), pool@),
    decreases *old(v),
{
    let mut i: usize = 0;
    while i < v.len()
        invariant
            i <= v.len(),
            v.len() == old(v).len(),
            forall|j: int|
                0 <= j < i ==> (#[trigger] v@[j])@ == selftype_stripped_case(old(v)@[j]@, pool@),
            forall|j: int| i <= j < v.len() ==> #[trigger] v@[j] == old(v)@[j],
        decreases v.len() - i,
    {
        assert(decreases_to!(*old(v) => v@[i as int]));
        strip_selftype_checkcasts_case(&mut v[i], pool);
        i += 1;
    }
    assert(case_groups(v@) =~= selftype_stripped_cases(case_groups(old(v)@), pool@));
}

/// `strip_selftype_checkcasts` inside a catch clause.
pub fn strip_selftype_checkcasts_catch(c: &mut Catch, pool: &ClassPool)
    ensures
        final(c)@ == selftype_stripped_catch(old(c)@, pool@),
    decreases *old(c),
{
    strip_selftype_checkcasts(&mut c.body, pool);
}

/// `strip_selftype_checkcasts` over a list.
#[verifier::loop_isolation(false)]
pub fn strip_selftype_checkcasts_catches(v: &mut Vec<Catch>, pool: &ClassPool)
    ensures
        catch_list(final(v)@) == selftype_stripped_catches(catch_list(old(v)@), pool@),
    decreases *old(v),
{
    let mut i: usize = 0;
    while i < v.len()
        invariant
            i <= v.len(),
            v.len() == old(v).len(),
            forall|j: int|
                0 <= j < i ==> (#[trigger] v@[j])@ == selftype_stripped_catch(old(v)@[j]@, pool@),
            forall|j: int| i <= j < v.len() ==> #[trigger] v@[j] == old(v)@[j],
        decreases v.len() - i,
    {
        assert(decreases_to!(*old(v) => v@[i as int]));
        strip_selftype_checkcasts_catch(&mut v[i], pool);
        i += 1;
    }
    assert(catch_list(v@) =~= selftype_stripped_catches(catch_list(old(v)@), pool@));
}

/// Strips the redundant casts of `e`, outside in.
pub fn fix_expr(e: &mut Expr, pool: &ClassPool)
    ensures
        final(e)@ == cast_stripped(old(e)@, pool@),
    decreases *old(e), 1nat,
{
    if is_redundant(e, pool) {
        let whole = take_expr(e);
        if let Expr::Cast { e: inner, .. } = whole {
            *e = *inner;
        }
        assert(decreases_to!(*old(e) => *e));
        fix_children(e, pool);
    } else {
        fix_children(e, pool);
    }
}

/// `fix_expr` where there is a value.
pub fn fix_expr_oexpr(o: &mut Option<Expr>, pool: &ClassPool)
    ensures
        opt_expr(*final(o)) == cast_stripped_oexpr(opt_expr(*old(o)), pool@),
{
    if let Some(e) = o {
        fix_expr(e, pool);
    }
}

/// `fix_expr` over a list.
pub fn fix_expr_exprs(v: &mut Vec<Expr>, pool: &ClassPool)
    ensures
        exprs(final(v)@) == cast_stripped_exprs(exprs(old(v)@), pool@),
{
    fix_children_exprs(v, pool);
}

/// Whether `e` is a redundant cast.
fn is_redundant(e: &Expr, pool: &ClassPool) -> (r: bool)
    ensures
        r == redundant_cast(e@, pool@),
{
    proof {
        reveal_with_fuel(Expr::view, 2);
    }
    match e {
        Expr::Cast { ty, e } => match (&**e, ty) {
            (Expr::Method { cls, name, desc, .. }, TypeRef::J(JType::Object(x))) => *x == *cls
                && !desc.ret.is_object(cls.as_str()) && is_self_covariant(
                cls.as_str(),
                name.as_str(),
                pool,
            ),
            _ => false,
        },
        _ => false,
    }
}

/// Whether method `mi` qualifies.
#[verifier::loop_isolation(false)]
fn method_fits(
    pc: &PoolClass,
    mi: usize,
    visited: &str,
    cls: &str,
    name: &str,
    suffix: &str,
) -> (r: bool)
    requires
        mi < pc.methods.len(),
        suffix@ == returns_suffix(cls@),
    ensures
        r == method_returns(pc@, mi as int, visited@, cls@, name@),
{
    if !opt_is(pc.method_name(mi), name) {
        return false;
    }
    if let Some(d) = pc.method_desc(mi) {
        if ends_with(d, suffix) {
            return true;
        }
    }
    if crate::types::str_eq(visited, cls) {
        return false;
    }
    let m: &Member = &pc.methods[mi];
    assert(pc@.methods[mi as int] == m@);
    let mut k: usize = 0;
    while k < m.attributes.len()
        invariant
            k <= m.attributes.len(),
            forall|j: int|
                0 <= j < k ==> !returns_type_var(pc@, #[trigger] attributes(m.attributes@)[j]),
        decreases m.attributes.len() - k,
    {
        let a = &m.attributes[k];
        assert(attributes(m.attributes@)[k as int] == a@);
        if opt_is(pc.utf8(a.name_index), "Signature") {
            if let Some(i) = leading_u16(&a.info) {
                if let Some(text) = pc.utf8(i) {
                    if let Some(sig) = parse_method_signature(text) {
                        if matches!(sig.ret, GType::TypeVar(_)) {
                            assert(
                                returns_type_var(pc@, pc@.methods[mi as int].attributes[k as int])
                            );
                            return true;
                        }
                    }
                }
            }
        }
        k += 1;
    }
    false
}

/// Whether some method of `pc` qualifies.
fn class_fits(pc: &PoolClass, visited: &str, cls: &str, name: &str, suffix: &str) -> (r: bool)
    requires
        suffix@ == returns_suffix(cls@),
    ensures
        r == class_returns(pc@, visited@, cls@, name@),
{
    let mut mi: usize = 0;
    while mi < pc.methods.len()
        invariant
            mi <= pc.methods.len(),
            suffix@ == returns_suffix(cls@),
            forall|j: int|
                0 <= j < mi ==> !#[trigger] method_returns(pc@, j, visited@, cls@, name@),
        decreases pc.methods.len() - mi,
    {
        if method_fits(pc, mi, visited, cls, name, suffix) {
            return true;
        }
        mi += 1;
    }
    false
}

/// Adds the supertypes of `pc` to the end of `queue`.
pub fn push_supertypes(pc: &PoolClass, queue: &mut Vec<String>)
    ensures
        strs(final(queue)@) == strs(old(queue)@) + supertypes(pc@),
{
    let ghost base = strs(queue@);
    if let Some(s) = pc.super_name() {
        queue.push(s.to_owned());
        assert(strs(queue@) =~= base.push(s@));
    }
    let ghost mid = strs(queue@);
    let mut i: usize = 0;
    while i < pc.interfaces.len()
        invariant
            i <= pc.interfaces.len(),
            strs(queue@) == mid + interface_names(pc@, i as nat),
        decreases pc.interfaces.len() - i,
    {
        let ghost before = strs(queue@);
        if let Some(n) = pc.class_name(pc.interfaces[i]) {
            queue.push(n.to_owned());
            assert(strs(queue@) =~= before.push(n@));
        }
        i += 1;
        assert(strs(queue@) =~= mid + interface_names(pc@, i as nat));
    }
    assert(strs(queue@) =~= base + supertypes(pc@));
}

/// Whether `name` returns its own class, in `cls` or above it.
pub fn is_self_covariant(cls: &str, name: &str, pool: &ClassPool) -> (r: bool)
    ensures
        r == self_covariant(cls@, name@, pool@),
{
    proof {
        reveal_strlit(")L");
        reveal_strlit(";");
    }
    let mut suffix: String = ")L".to_owned();
    suffix.append(cls);
    suffix.append(";");
    assert(suffix@ =~= returns_suffix(cls@));
    let mut queue: Vec<String> = Vec::new();
    queue.push(cls.to_owned());
    let mut seen: Vec<String> = Vec::new();
    assert(strs(queue@) =~= seq![cls@]);
    assert(strs(seen@) =~= seq![]);
    while queue.len() > 0
        invariant
            seen.len() <= 65,
            suffix@ == returns_suffix(cls@),
            finds_self_return(strs(queue@), strs(seen@), cls@, name@, pool@) == self_covariant(
                cls@,
                name@,
                pool@,
            ),
        decreases 65 - seen.len(), queue.len(),
    {
        let ghost all = strs(queue@);
        let ghost been = strs(seen@);
        if let Some(c) = queue.pop() {
            assert(strs(queue@) =~= all.drop_last());
            if seen.len() >= 65 || contains_string(&seen, c.as_str()) {
                continue;
            }
            if let Some(pc) = pool.get(c.as_str()) {
                if class_fits(pc, c.as_str(), cls, name, suffix.as_str()) {
                    return true;
                }
                push_supertypes(pc, &mut queue);
            }
            let ghost visited = c@;
            seen.push(c);
            assert(strs(seen@) =~= been.push(visited));
        }
    }
    false
}

} // verus!
