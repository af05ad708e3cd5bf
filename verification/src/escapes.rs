//! Declarations moved to where every use can see them.
use crate::assigns::{mentions, mentions_var};
use crate::captures::{
    anon_captures, assigns_null_to, captured_by_anon, captured_by_lambda, given_null,
    lambda_captures, null_first, straight_null_init,
};
use crate::expr::{
    concat_parts, exprs, opt_box, opt_expr, opt_exprs, ConcatPart, ConcatPartV, ConstVal, ConstValV,
    Expr, ExprV, LambdaExpr, LambdaExprV,
};
use crate::merged_news::{make_store, store};
use crate::order::{in_order, sorted_ids};
use crate::rethrows::{drop_rethrows, rethrows_dropped};
use crate::stack_vars::{bare, bare_def, prepend_decls, with_decls};
use crate::stmt::{
    case_groups, catch_list, empty_block, opt_stmt, stmts, take_stmt, CaseGroup, CaseGroupV, Catch,
    CatchV, Stmt, StmtV,
};
use crate::text::contains_u32;
use crate::types::{erase, JType, JTypeV};
use crate::uses::{
    collect_decl_use, declares, expr_uses, expr_uses_exprs, expr_uses_oexpr, stmt_uses, uses_local,
    uses_local_exprs, uses_local_oexpr,
};
use crate::var::{is_param, var_type, VarTable, VarTableV};
use std::collections::HashSet;
use vstd::prelude::*;

verus! {

broadcast use vstd::std_specs::hash::group_hash_axioms;

// ---------------------------------------------------------------------
// Uses outside the scope of the declaration.

/// The variables declared in the open scopes, those ever declared, and those used
/// while declared in no open scope.
pub struct Escapes {
    pub open: Vec<u32>,
    pub ever: HashSet<u32>,
    pub escaped: HashSet<u32>,
}

/// Model of [`Escapes`].
pub ghost struct EscapesV {
    pub open: Seq<u32>,
    pub ever: Set<u32>,
    pub escaped: Set<u32>,
}

impl Escapes {
    pub open spec fn view(&self) -> EscapesV {
        EscapesV { open: self.open@, ever: self.ever@, escaped: self.escaped@ }
    }
}

/// Variable `v` occurs in `e`, was declared and is not open.
pub open spec fn escapes_in(e: ExprV, open: Seq<u32>, ever: Set<u32>, v: u32) -> bool
    decreases e,
{
    match e {
        ExprV::Const(_) => false,
        ExprV::Local { var, .. } => var == v && !open.contains(v) && ever.contains(v),
        ExprV::This => false,
        ExprV::New { args, .. } => escapes_in_exprs(args, open, ever, v),
        ExprV::NewArray { dims, init, .. } => escapes_in_exprs(dims, open, ever, v)
            || escapes_in_oexprs(init, open, ever, v),
        ExprV::Field { owner, .. } => escapes_in_opt(owner, open, ever, v),
        ExprV::Method { owner, args, .. } => escapes_in_opt(owner, open, ever, v)
            || escapes_in_exprs(args, open, ever, v),
        ExprV::ArrayIndex { array, index } => escapes_in(*array, open, ever, v)
            || escapes_in(*index, open, ever, v),
        ExprV::Cast { e, .. } => escapes_in(*e, open, ever, v),
        ExprV::InstanceOf { e, .. } => escapes_in(*e, open, ever, v),
        ExprV::Un { e, .. } => escapes_in(*e, open, ever, v),
        ExprV::Bin { l, r, .. } => escapes_in(*l, open, ever, v) || escapes_in(*r, open, ever, v),
        ExprV::Cond { c, t, f } => escapes_in(*c, open, ever, v) || escapes_in(*t, open, ever, v)
            || escapes_in(*f, open, ever, v),
        ExprV::Assign { target, value, .. } => escapes_in(*target, open, ever, v)
            || escapes_in(*value, open, ever, v),
        ExprV::PreIncDec { e, .. } => escapes_in(*e, open, ever, v),
        ExprV::PostIncDec { e, .. } => escapes_in(*e, open, ever, v),
        ExprV::Lambda(l) => escapes_in_captures(*l, open, ever, v),
        ExprV::StringConcat(parts) => escapes_in_parts(parts, open, ever, v),
        ExprV::Raw(_) => false,
        ExprV::RawT(_, _) => false,
        ExprV::Invokedynamic { args, .. } => escapes_in_exprs(args, open, ever, v),
        ExprV::AnonNew { args, .. } => escapes_in_exprs(args, open, ever, v),
        ExprV::NewMultiArray { dims, .. } => escapes_in_exprs(dims, open, ever, v),
        _ => false,
    }
}

/// [`escapes_in`] where there is a value.
pub open spec fn escapes_in_opt(
    o: Option<Box<ExprV>>,
    open: Seq<u32>,
    ever: Set<u32>,
    v: u32,
) -> bool
    decreases o,
{
    match o {
        Some(x) => escapes_in(*x, open, ever, v),
        None => false,
    }
}

/// [`escapes_in`] where there is a value.
pub open spec fn escapes_in_oexprs(
    o: Option<Seq<ExprV>>,
    open: Seq<u32>,
    ever: Set<u32>,
    v: u32,
) -> bool
    decreases o,
{
    match o {
        Some(x) => escapes_in_exprs(x, open, ever, v),
        None => false,
    }
}

/// [`escapes_in`] inside the captures of a lambda.
pub open spec fn escapes_in_captures(l: LambdaExprV, open: Seq<u32>, ever: Set<u32>, v: u32) -> bool
    decreases l,
{
    escapes_in_exprs(l.captures, open, ever, v)
}

/// [`escapes_in`] over a list.
pub open spec fn escapes_in_exprs(l: Seq<ExprV>, open: Seq<u32>, ever: Set<u32>, v: u32) -> bool
    decreases l,
{
    exists|i: int| 0 <= i < l.len() && escapes_in(#[trigger] l[i], open, ever, v)
}

/// [`escapes_in`] inside a concatenation piece.
pub open spec fn escapes_in_part(p: ConcatPartV, open: Seq<u32>, ever: Set<u32>, v: u32) -> bool
    decreases p,
{
    match p {
        ConcatPartV::Str(e) => escapes_in(e, open, ever, v),
        ConcatPartV::Const(_) => false,
    }
}

/// [`escapes_in`] over a list.
pub open spec fn escapes_in_parts(
    l: Seq<ConcatPartV>,
    open: Seq<u32>,
    ever: Set<u32>,
    v: u32,
) -> bool
    decreases l,
{
    exists|i: int| 0 <= i < l.len() && escapes_in_part(#[trigger] l[i], open, ever, v)
}

/// Adds to `out` the variables in `e` that were declared but are not open.
pub fn expr_uses_collect(e: &Expr, open: &Vec<u32>, ever: &HashSet<u32>, out: &mut HashSet<u32>)
    ensures
        forall|v: u32|
            #[trigger] final(out)@.contains(v)
                <==> old(out)@.contains(v) || escapes_in(e@, open@, ever@, v),
    decreases e,
{
    match e {
        Expr::Const(_) => {  },
        Expr::Local { var, .. } => {
            if !contains_u32(open, *var) && ever.contains(var) { out.insert(*var); }
        },
        Expr::This => {  },
        Expr::New { args, .. } => { expr_uses_collect_exprs(args, open, ever, out); },
        Expr::NewArray { dims, init, .. } => {
            expr_uses_collect_exprs(dims, open, ever, out);
            expr_uses_collect_oexprs(init, open, ever, out);
        },
        Expr::Field { owner, .. } => { expr_uses_collect_opt(owner, open, ever, out); },
        Expr::Method { owner, args, .. } => {
            expr_uses_collect_opt(owner, open, ever, out);
            expr_uses_collect_exprs(args, open, ever, out);
        },
        Expr::ArrayIndex { array, index } => {
            expr_uses_collect(array, open, ever, out);
            expr_uses_collect(index, open, ever, out);
        },
        Expr::Cast { e, .. } => { expr_uses_collect(e, open, ever, out); },
        Expr::InstanceOf { e, .. } => { expr_uses_collect(e, open, ever, out); },
        Expr::Un { e, .. } => { expr_uses_collect(e, open, ever, out); },
        Expr::Bin { l, r, .. } => {
            expr_uses_collect(l, open, ever, out);
            expr_uses_collect(r, open, ever, out);
        },
        Expr::Cond { c, t, f } => {
            expr_uses_collect(c, open, ever, out);
            expr_uses_collect(t, open, ever, out);
            expr_uses_collect(f, open, ever, out);
        },
        Expr::Assign { target, value, .. } => {
            expr_uses_collect(target, open, ever, out);
            expr_uses_collect(value, open, ever, out);
        },
        Expr::PreIncDec { e, .. } => { expr_uses_collect(e, open, ever, out); },
        Expr::PostIncDec { e, .. } => { expr_uses_collect(e, open, ever, out); },
        Expr::Lambda(l) => { expr_uses_collect_captures(l, open, ever, out); },
        Expr::StringConcat(parts) => { expr_uses_collect_parts(parts, open, ever, out); },
        Expr::Raw(_) => {  },
        Expr::RawT(_, _) => {  },
        Expr::Invokedynamic { args, .. } => { expr_uses_collect_exprs(args, open, ever, out); },
        Expr::AnonNew { args, .. } => { expr_uses_collect_exprs(args, open, ever, out); },
        Expr::NewMultiArray { dims, .. } => { expr_uses_collect_exprs(dims, open, ever, out); },
        _ => {},
    }
}

/// `expr_uses_collect` where there is a value.
pub fn expr_uses_collect_opt(
    o: &Option<Box<Expr>>,
    open: &Vec<u32>,
    ever: &HashSet<u32>,
    out: &mut HashSet<u32>,
)
    ensures
        forall|v: u32|
            #[trigger] final(out)@.contains(v)
                <==> old(out)@.contains(v) || escapes_in_opt(opt_box(*o), open@, ever@, v),
    decreases o,
{
    if let Some(x) = o {
        expr_uses_collect(x, open, ever, out);
    }
}

/// `expr_uses_collect` where there is a value.
pub fn expr_uses_collect_oexprs(
    o: &Option<Vec<Expr>>,
    open: &Vec<u32>,
    ever: &HashSet<u32>,
    out: &mut HashSet<u32>,
)
    ensures
        forall|v: u32|
            #[trigger] final(out)@.contains(v)
                <==> old(out)@.contains(v) || escapes_in_oexprs(opt_exprs(*o), open@, ever@, v),
    decreases o,
{
    if let Some(x) = o {
        expr_uses_collect_exprs(x, open, ever, out);
    }
}

/// `expr_uses_collect` inside the captures of a lambda.
pub fn expr_uses_collect_captures(
    l: &LambdaExpr,
    open: &Vec<u32>,
    ever: &HashSet<u32>,
    out: &mut HashSet<u32>,
)
    ensures
        forall|v: u32|
            #[trigger] final(out)@.contains(v)
                <==> old(out)@.contains(v) || escapes_in_captures(l@, open@, ever@, v),
    decreases l,
{
    expr_uses_collect_exprs(&l.captures, open, ever, out);
}

/// `expr_uses_collect` over a list.
#[verifier::loop_isolation(false)]
pub fn expr_uses_collect_exprs(
    l: &Vec<Expr>,
    open: &Vec<u32>,
    ever: &HashSet<u32>,
    out: &mut HashSet<u32>,
)
    ensures
        forall|v: u32|
            #[trigger] final(out)@.contains(v)
                <==> old(out)@.contains(v) || escapes_in_exprs(exprs(l@), open@, ever@, v),
    decreases l,
{
    let mut i: usize = 0;
    while i < l.len()
        invariant
            i <= l.len(),
            forall|v: u32| #[trigger] out@.contains(v) <==> old(out)@.contains(v) || exists|j: int|
                0 <= j < i && escapes_in(#[trigger] exprs(l@)[j], open@, ever@, v),
        decreases l.len() - i,
    {
        assert(decreases_to!(l => l@[i as int]));
        assert(exprs(l@)[i as int] == l@[i as int]@);
        expr_uses_collect(&l[i], open, ever, out);
        i += 1;
    }
}

/// `expr_uses_collect` inside a concatenation piece.
pub fn expr_uses_collect_part(
    p: &ConcatPart,
    open: &Vec<u32>,
    ever: &HashSet<u32>,
    out: &mut HashSet<u32>,
)
    ensures
        forall|v: u32|
            #[trigger] final(out)@.contains(v)
                <==> old(out)@.contains(v) || escapes_in_part(p@, open@, ever@, v),
    decreases p,
{
    match p {
        ConcatPart::Str(e) => expr_uses_collect(e, open, ever, out),
        ConcatPart::Const(_) => {},
    }
}

/// `expr_uses_collect` over a list.
#[verifier::loop_isolation(false)]
pub fn expr_uses_collect_parts(
    l: &Vec<ConcatPart>,
    open: &Vec<u32>,
    ever: &HashSet<u32>,
    out: &mut HashSet<u32>,
)
    ensures
        forall|v: u32|
            #[trigger] final(out)@.contains(v)
                <==> old(out)@.contains(v) || escapes_in_parts(concat_parts(l@), open@, ever@, v),
    decreases l,
{
    let mut i: usize = 0;
    while i < l.len()
        invariant
            i <= l.len(),
            forall|v: u32| #[trigger] out@.contains(v) <==> old(out)@.contains(v) || exists|j: int|
                0 <= j < i && escapes_in_part(#[trigger] concat_parts(l@)[j], open@, ever@, v),
        decreases l.len() - i,
    {
        assert(decreases_to!(l => l@[i as int]));
        assert(concat_parts(l@)[i as int] == l@[i as int]@);
        expr_uses_collect_part(&l[i], open, ever, out);
        i += 1;
    }
}

/// What is known after the uses in `e`.
pub open spec fn uses_noted(e: ExprV, st: EscapesV) -> EscapesV {
    EscapesV {
        escaped: st.escaped.union(Set::new(|v: u32| escapes_in(e, st.open, st.ever, v))),
        ..st
    }
}

/// [`uses_noted`] where there is a value.
pub open spec fn uses_noted_oexpr(o: Option<ExprV>, st: EscapesV) -> EscapesV {
    match o {
        Some(e) => uses_noted(e, st),
        None => st,
    }
}

/// [`uses_noted`] over a list.
pub open spec fn uses_noted_exprs(l: Seq<ExprV>, st: EscapesV) -> EscapesV
    decreases l.len(),
{
    if l.len() == 0 {
        st
    } else {
        uses_noted(l.last(), uses_noted_exprs(l.drop_last(), st))
    }
}

/// Notes the uses in `e`.
fn note_uses(e: &Expr, st: &mut Escapes)
    ensures
        final(st)@ == uses_noted(e@, old(st)@),
        old(st)@.open.is_prefix_of(final(st)@.open),
{
    expr_uses_collect(e, &st.open, &st.ever, &mut st.escaped);
    assert(st.escaped@ =~= uses_noted(e@, old(st)@).escaped);
}

/// `note_uses` where there is a value.
fn note_uses_oexpr(o: &Option<Expr>, st: &mut Escapes)
    ensures
        final(st)@ == uses_noted_oexpr(opt_expr(*o), old(st)@),
        old(st)@.open.is_prefix_of(final(st)@.open),
{
    if let Some(e) = o {
        note_uses(e, st);
    }
}

/// `note_uses` over a list.
#[verifier::loop_isolation(false)]
fn note_uses_exprs(l: &Vec<Expr>, st: &mut Escapes)
    ensures
        final(st)@ == uses_noted_exprs(exprs(l@), old(st)@),
        old(st)@.open.is_prefix_of(final(st)@.open),
{
    let ghost all = exprs(l@);
    let mut i: usize = 0;
    while i < l.len()
        invariant
            i <= l.len(),
            st@ == uses_noted_exprs(all.take(i as int), old(st)@),
            old(st)@.open.is_prefix_of(st@.open),
        decreases l.len() - i,
    {
        assert(all.take(i + 1).drop_last() =~= all.take(i as int));
        note_uses(&l[i], st);
        i += 1;
    }
    assert(all.take(i as int) =~= all);
}

/// What is known once `var` is declared in the innermost scope.
pub open spec fn declared(var: u32, st: EscapesV) -> EscapesV {
    EscapesV { open: st.open.push(var), ever: st.ever.insert(var), ..st }
}

/// What is known after a nested scope: what it declared is no longer open.
pub open spec fn closed_to(st: EscapesV, outer: EscapesV) -> EscapesV {
    EscapesV { open: outer.open, ..st }
}

/// Declares `var`.
fn declare(var: u32, st: &mut Escapes)
    ensures
        final(st)@ == declared(var, old(st)@),
{
    st.open.push(var);
    st.ever.insert(var);
    assert(st.open@ =~= old(st)@.open.push(var));
}

/// Closes the scopes opened since `n` variables were open.
fn close_to(st: &mut Escapes, n: usize)
    requires
        n <= old(st).open.len(),
    ensures
        final(st)@ == (EscapesV { open: old(st)@.open.take(n as int), ..old(st)@ }),
{
    st.open.truncate(n);
    assert(st.open@ =~= old(st)@.open.take(n as int));
}

/// [`scanned`] in a scope of its own.
pub open spec fn scanned_scoped(s: StmtV, st: EscapesV) -> EscapesV
    decreases s, 1nat,
{
    closed_to(scanned(s, st), st)
}

/// [`scanned_scoped`] where there is a statement.
pub open spec fn scanned_opt_scoped(o: Option<Box<StmtV>>, st: EscapesV) -> EscapesV
    decreases o, 1nat,
{
    match o {
        Some(s) => scanned_scoped(*s, st),
        None => st,
    }
}

/// What is known after the declarations and uses of `s`, scope by scope.
pub open spec fn scanned(s: StmtV, st: EscapesV) -> EscapesV
    decreases s, 0nat,
{
    match s {
        StmtV::Block(items) => closed_to(scanned_seq(items, st), st),
        StmtV::ExprStmt(e) => { uses_noted(e, st) },
        StmtV::LocalDef { var, init, .. } => {
            let st1 = uses_noted_oexpr(init, st);
            if st1.open.contains(var) { st1 } else { declared(var, st1) }
        },
        StmtV::Return(e) => { uses_noted_oexpr(e, st) },
        StmtV::Throw(e) => { uses_noted(e, st) },
        StmtV::If { cond, then_stmt, else_stmt } => {
            let st1 = uses_noted(cond, st);
            let st2 = scanned_scoped(*then_stmt, st1);
            scanned_opt_scoped(else_stmt, st2)
        },
        StmtV::While { cond, body } => scanned_scoped(*body, uses_noted(cond, st)),
        StmtV::DoWhile { body, cond } => uses_noted(cond, scanned_scoped(*body, st)),
        StmtV::For { init, cond, update, body } => {
            let st1 = uses_noted_exprs(update, uses_noted_oexpr(cond, scanned_seq(init, st)));
            closed_to(scanned(*body, st1), st)
        },
        StmtV::ForEach { var, iterable, body, .. } => closed_to(
            scanned(*body, declared(var, uses_noted(iterable, st))),
            st,
        ),
        StmtV::Switch { selector, cases, default, .. } => {
            let st1 = uses_noted(selector, st);
            let st2 = scanned_cases(cases, st1);
            scanned_opt(default, st2)
        },
        StmtV::Try { body, catches, finally } => {
            let st1 = scanned(*body, st);
            let st2 = scanned_catches(catches, st1);
            scanned_opt(finally, st2)
        },
        StmtV::TryWithResources { resources, body, catches, finally } => {
            let st1 = scanned(*body, scanned_seq(resources, st));
            closed_to(scanned_opt(finally, scanned_catches(catches, st1)), st)
        },
        StmtV::Synchronized { lock, body } => {
            let st1 = uses_noted(lock, st);
            scanned(*body, st1)
        },
        StmtV::MonitorEnter(e) => { uses_noted(e, st) },
        StmtV::MonitorExit(e) => { uses_noted(e, st) },
        StmtV::Label(_) => { st },
        StmtV::Goto(_) => { st },
        StmtV::ClassDecl { .. } => { st },
        StmtV::Labeled { body, .. } => { scanned(*body, st) },
        StmtV::Break(_) => { st },
        StmtV::Continue(_) => { st },
        StmtV::Comment(_) => { st },
        StmtV::Assert { cond, msg } => {
            let st1 = uses_noted(cond, st);
            uses_noted_oexpr(msg, st1)
        },
        StmtV::TernaryValue { e } => { uses_noted(e, st) },
        _ => st,
    }
}

/// [`scanned`] where there is a value.
pub open spec fn scanned_opt(o: Option<Box<StmtV>>, st: EscapesV) -> EscapesV
    decreases o, 0nat,
{
    match o {
        Some(x) => scanned(*x, st),
        None => st,
    }
}

/// [`scanned`] over a list, in order.
pub open spec fn scanned_seq(l: Seq<StmtV>, st: EscapesV) -> EscapesV
    decreases l, 0nat,
{
    if l.len() == 0 {
        st
    } else {
        let st1 = scanned_seq(l.drop_last(), st);
        scanned(l.last(), st1)
    }
}

/// [`scanned`] inside a switch arm.
pub open spec fn scanned_case(c: CaseGroupV, st: EscapesV) -> EscapesV
    decreases c, 0nat,
{
    closed_to(scanned_seq(c.body, st), st)
}

/// [`scanned`] over a list, in order.
pub open spec fn scanned_cases(l: Seq<CaseGroupV>, st: EscapesV) -> EscapesV
    decreases l, 0nat,
{
    if l.len() == 0 {
        st
    } else {
        let st1 = scanned_cases(l.drop_last(), st);
        scanned_case(l.last(), st1)
    }
}

/// [`scanned`] inside a catch clause.
pub open spec fn scanned_catch(c: CatchV, st: EscapesV) -> EscapesV
    decreases c, 0nat,
{
    let inner = if c.var != u32::MAX { declared(c.var, st) } else { st };
    closed_to(scanned(*c.body, inner), st)
}

/// [`scanned`] over a list, in order.
pub open spec fn scanned_catches(l: Seq<CatchV>, st: EscapesV) -> EscapesV
    decreases l, 0nat,
{
    if l.len() == 0 {
        st
    } else {
        let st1 = scanned_catches(l.drop_last(), st);
        scanned_catch(l.last(), st1)
    }
}

/// Notes the declarations and uses of `s`, scope by scope.
pub fn escape_scan(s: &Stmt, st: &mut Escapes)
    ensures
        final(st)@ == scanned(s@, old(st)@),
        old(st)@.open.is_prefix_of(final(st)@.open),
    decreases s, 0nat,
{
    match s {
        Stmt::Block(items) => {
            let n = st.open.len();
            escape_scan_vec(items, st);
            close_to(st, n);
            assert(st@.open =~= old(st)@.open);
        },
        Stmt::ExprStmt(e) => { note_uses(e, st); },
        Stmt::LocalDef { var, init, .. } => {
            note_uses_oexpr(init, st);
            if !in_open(&st.open, *var) { declare(*var, st); }
        },
        Stmt::Return(e) => { note_uses_oexpr(e, st); },
        Stmt::Throw(e) => { note_uses(e, st); },
        Stmt::If { cond, then_stmt, else_stmt } => {
            note_uses(cond, st);
            escape_scan_scoped(then_stmt, st);
            escape_scan_opt_scoped(else_stmt, st);
        },
        Stmt::While { cond, body } => { note_uses(cond, st); escape_scan_scoped(body, st); },
        Stmt::DoWhile { body, cond } => { escape_scan_scoped(body, st); note_uses(cond, st); },
        Stmt::For { init, cond, update, body } => {
            let n = st.open.len();
            escape_scan_vec(init, st);
            note_uses_oexpr(cond, st);
            note_uses_exprs(update, st);
            escape_scan(body, st);
            close_to(st, n);
            assert(st@.open =~= old(st)@.open);
        },
        Stmt::ForEach { var, iterable, body, .. } => {
            let n = st.open.len();
            note_uses(iterable, st);
            declare(*var, st);
            escape_scan(body, st);
            close_to(st, n);
            assert(st@.open =~= old(st)@.open);
        },
        Stmt::Switch { selector, cases, default, .. } => {
            note_uses(selector, st);
            escape_scan_cases(cases, st);
            escape_scan_opt(default, st);
        },
        Stmt::Try { body, catches, finally } => {
            escape_scan(body, st);
            escape_scan_catches(catches, st);
            escape_scan_opt(finally, st);
        },
        Stmt::TryWithResources { resources, body, catches, finally } => {
            let n = st.open.len();
            escape_scan_vec(resources, st);
            escape_scan(body, st);
            escape_scan_catches(catches, st);
            escape_scan_opt(finally, st);
            close_to(st, n);
            assert(st@.open =~= old(st)@.open);
        },
        Stmt::Synchronized { lock, body } => { note_uses(lock, st); escape_scan(body, st); },
        Stmt::MonitorEnter(e) => { note_uses(e, st); },
        Stmt::MonitorExit(e) => { note_uses(e, st); },
        Stmt::Label(_) => {  },
        Stmt::Goto(_) => {  },
        Stmt::ClassDecl { .. } => {  },
        Stmt::Labeled { body, .. } => { escape_scan(body, st); },
        Stmt::Break(_) => {  },
        Stmt::Continue(_) => {  },
        Stmt::Comment(_) => {  },
        Stmt::Assert { cond, msg } => { note_uses(cond, st); note_uses_oexpr(msg, st); },
        Stmt::TernaryValue { e } => { note_uses(e, st); },
        _ => {},
    }
}

/// `escape_scan` where there is a value.
pub fn escape_scan_opt(o: &Option<Box<Stmt>>, st: &mut Escapes)
    ensures
        final(st)@ == scanned_opt(opt_stmt(*o), old(st)@),
        old(st)@.open.is_prefix_of(final(st)@.open),
    decreases o, 0nat,
{
    if let Some(x) = o {
        escape_scan(x, st);
    }
}

/// `escape_scan` over a list, in order.
#[verifier::loop_isolation(false)]
pub fn escape_scan_vec(l: &Vec<Stmt>, st: &mut Escapes)
    ensures
        final(st)@ == scanned_seq(stmts(l@), old(st)@),
        old(st)@.open.is_prefix_of(final(st)@.open),
    decreases l, 0nat,
{
    let ghost all = stmts(l@);
    let mut i: usize = 0;
    while i < l.len()
        invariant
            i <= l.len(),
            st@ == scanned_seq(all.take(i as int), old(st)@),
            old(st)@.open.is_prefix_of(st@.open),
        decreases l.len() - i,
    {
        assert(decreases_to!(l => l@[i as int]));
        assert(all.take(i + 1).drop_last() =~= all.take(i as int));
        escape_scan(&l[i], st);
        i += 1;
    }
    assert(all.take(i as int) =~= all);
}

/// `escape_scan` inside a switch arm.
pub fn escape_scan_case(c: &CaseGroup, st: &mut Escapes)
    ensures
        final(st)@ == scanned_case(c@, old(st)@),
        old(st)@.open.is_prefix_of(final(st)@.open),
    decreases c, 0nat,
{
    let n = st.open.len();
    escape_scan_vec(&c.body, st);
    close_to(st, n);
    assert(st@.open =~= old(st)@.open);
}

/// `escape_scan` over a list, in order.
#[verifier::loop_isolation(false)]
pub fn escape_scan_cases(l: &Vec<CaseGroup>, st: &mut Escapes)
    ensures
        final(st)@ == scanned_cases(case_groups(l@), old(st)@),
        old(st)@.open.is_prefix_of(final(st)@.open),
    decreases l, 0nat,
{
    let ghost all = case_groups(l@);
    let mut i: usize = 0;
    while i < l.len()
        invariant
            i <= l.len(),
            st@ == scanned_cases(all.take(i as int), old(st)@),
            old(st)@.open.is_prefix_of(st@.open),
        decreases l.len() - i,
    {
        assert(decreases_to!(l => l@[i as int]));
        assert(all.take(i + 1).drop_last() =~= all.take(i as int));
        escape_scan_case(&l[i], st);
        i += 1;
    }
    assert(all.take(i as int) =~= all);
}

/// `escape_scan` inside a catch clause.
pub fn escape_scan_catch(c: &Catch, st: &mut Escapes)
    ensures
        final(st)@ == scanned_catch(c@, old(st)@),
        old(st)@.open.is_prefix_of(final(st)@.open),
    decreases c, 0nat,
{
    let n = st.open.len();
    if c.var != u32::MAX {
        declare(c.var, st);
    }
    escape_scan(&c.body, st);
    close_to(st, n);
    assert(st@.open =~= old(st)@.open);
}

/// `escape_scan` over a list, in order.
#[verifier::loop_isolation(false)]
pub fn escape_scan_catches(l: &Vec<Catch>, st: &mut Escapes)
    ensures
        final(st)@ == scanned_catches(catch_list(l@), old(st)@),
        old(st)@.open.is_prefix_of(final(st)@.open),
    decreases l, 0nat,
{
    let ghost all = catch_list(l@);
    let mut i: usize = 0;
    while i < l.len()
        invariant
            i <= l.len(),
            st@ == scanned_catches(all.take(i as int), old(st)@),
            old(st)@.open.is_prefix_of(st@.open),
        decreases l.len() - i,
    {
        assert(decreases_to!(l => l@[i as int]));
        assert(all.take(i + 1).drop_last() =~= all.take(i as int));
        escape_scan_catch(&l[i], st);
        i += 1;
    }
    assert(all.take(i as int) =~= all);
}

/// `escape_scan` in a scope of its own.
fn escape_scan_scoped(s: &Stmt, st: &mut Escapes)
    ensures
        final(st)@ == scanned_scoped(s@, old(st)@),
        old(st)@.open.is_prefix_of(final(st)@.open),
    decreases s, 1nat,
{
    let n = st.open.len();
    escape_scan(s, st);
    close_to(st, n);
    assert(st@.open =~= old(st)@.open);
}

/// `escape_scan_scoped` where there is a statement.
fn escape_scan_opt_scoped(o: &Option<Box<Stmt>>, st: &mut Escapes)
    ensures
        final(st)@ == scanned_opt_scoped(opt_stmt(*o), old(st)@),
        old(st)@.open.is_prefix_of(final(st)@.open),
    decreases o, 1nat,
{
    if let Some(s) = o {
        escape_scan_scoped(s, st);
    }
}

/// Whether an open scope declares `v`.
pub fn in_open(open: &Vec<u32>, v: u32) -> (r: bool)
    ensures
        r == open@.contains(v),
{
    contains_u32(open, v)
}

// ---------------------------------------------------------------------
// Declarations turned into assignments.

/// A declaration of an escaped variable: its initialiser as an assignment, or
/// nothing.
pub open spec fn def_demoted(
    var: u32,
    init: Option<ExprV>,
    s: StmtV,
    vars: Set<u32>,
    vt: VarTableV,
) -> StmtV {
    if vars.contains(var) {
        match init {
            Some(e) => store(var, var_type(vt, var), e),
            None => empty_block(),
        }
    } else {
        s
    }
}

/// A resource that is a declaration stays.
pub open spec fn resource_demoted(s: StmtV, vars: Set<u32>, vt: VarTableV) -> StmtV
    decreases s, 1nat,
{
    if s is LocalDef {
        s
    } else {
        defs_demoted(s, vars, vt)
    }
}

/// [`resource_demoted`] over a list.
pub open spec fn resources_demoted(v: Seq<StmtV>, vars: Set<u32>, vt: VarTableV) -> Seq<StmtV>
    decreases v, 1nat,
{
    Seq::new(
        v.len(),
        |i: int|
            if 0 <= i < v.len() {
                resource_demoted(v[i], vars, vt)
            } else {
                arbitrary()
            },
    )
}

/// `s` with the declarations of `vars` turned into assignments, except in resource
/// lists.
pub open spec fn defs_demoted(s: StmtV, vars: Set<u32>, vt: VarTableV) -> StmtV
    decreases s, 0nat,
{
    match s {
        StmtV::Block(items) => StmtV::Block(defs_demoted_seq(items, vars, vt)),
        StmtV::LocalDef { var, init, is_final, force_type } => def_demoted(var, init, s, vars, vt),
        StmtV::If { cond, then_stmt, else_stmt } => StmtV::If {
            cond,
            then_stmt: Box::new(defs_demoted(*then_stmt, vars, vt)),
            else_stmt: defs_demoted_opt(else_stmt, vars, vt),
        },
        StmtV::While { cond, body } => StmtV::While {
            cond,
            body: Box::new(defs_demoted(*body, vars, vt)),
        },
        StmtV::DoWhile { body, cond } => StmtV::DoWhile {
            body: Box::new(defs_demoted(*body, vars, vt)),
            cond,
        },
        StmtV::For { init, cond, update, body } => StmtV::For {
            init: defs_demoted_seq(init, vars, vt),
            cond,
            update,
            body: Box::new(defs_demoted(*body, vars, vt)),
        },
        StmtV::ForEach { var, iterable, is_array, body } => StmtV::ForEach {
            var,
            iterable,
            is_array,
            body: Box::new(defs_demoted(*body, vars, vt)),
        },
        StmtV::Switch { selector, cases, default, on_string } => StmtV::Switch {
            selector,
            cases: defs_demoted_cases(cases, vars, vt),
            default: defs_demoted_opt(default, vars, vt),
            on_string,
        },
        StmtV::Try { body, catches, finally } => StmtV::Try {
            body: Box::new(defs_demoted(*body, vars, vt)),
            catches: defs_demoted_catches(catches, vars, vt),
            finally: defs_demoted_opt(finally, vars, vt),
        },
        StmtV::TryWithResources { resources, body, catches, finally } => StmtV::TryWithResources {
            resources: resources_demoted(resources, vars, vt),
            body: Box::new(defs_demoted(*body, vars, vt)),
            catches: defs_demoted_catches(catches, vars, vt),
            finally: defs_demoted_opt(finally, vars, vt),
        },
        StmtV::Synchronized { lock, body } => StmtV::Synchronized {
            lock,
            body: Box::new(defs_demoted(*body, vars, vt)),
        },
        StmtV::Labeled { label, body } => StmtV::Labeled {
            label,
            body: Box::new(defs_demoted(*body, vars, vt)),
        },
        _ => s,
    }
}

/// [`defs_demoted`] where there is a value.
pub open spec fn defs_demoted_opt(
    o: Option<Box<StmtV>>,
    vars: Set<u32>,
    vt: VarTableV,
) -> Option<Box<StmtV>>
    decreases o, 0nat,
{
    match o {
        Some(x) => Some(Box::new(defs_demoted(*x, vars, vt))),
        None => None,
    }
}

/// [`defs_demoted`] over a list.
pub open spec fn defs_demoted_seq(v: Seq<StmtV>, vars: Set<u32>, vt: VarTableV) -> Seq<StmtV>
    decreases v, 0nat,
{
    Seq::new(
        v.len(),
        |i: int| if 0 <= i < v.len() { defs_demoted(v[i], vars, vt) } else { arbitrary() },
    )
}

/// [`defs_demoted`] inside a switch arm.
pub open spec fn defs_demoted_case(c: CaseGroupV, vars: Set<u32>, vt: VarTableV) -> CaseGroupV
    decreases c, 0nat,
{
    CaseGroupV { body: defs_demoted_seq(c.body, vars, vt), ..c }
}

/// [`defs_demoted`] over a list.
pub open spec fn defs_demoted_cases(
    v: Seq<CaseGroupV>,
    vars: Set<u32>,
    vt: VarTableV,
) -> Seq<CaseGroupV>
    decreases v, 0nat,
{
    Seq::new(
        v.len(),
        |i: int| if 0 <= i < v.len() { defs_demoted_case(v[i], vars, vt) } else { arbitrary() },
    )
}

/// [`defs_demoted`] inside a catch clause.
pub open spec fn defs_demoted_catch(c: CatchV, vars: Set<u32>, vt: VarTableV) -> CatchV
    decreases c, 0nat,
{
    CatchV { body: Box::new(defs_demoted(*c.body, vars, vt)), ..c }
}

/// [`defs_demoted`] over a list.
pub open spec fn defs_demoted_catches(v: Seq<CatchV>, vars: Set<u32>, vt: VarTableV) -> Seq<CatchV>
    decreases v, 0nat,
{
    Seq::new(
        v.len(),
        |i: int| if 0 <= i < v.len() { defs_demoted_catch(v[i], vars, vt) } else { arbitrary() },
    )
}

/// Turns the declarations of `vars` into assignments, except in resource lists.
pub fn demote_defs(s: &mut Stmt, vars: &HashSet<u32>, vt: &VarTable)
    ensures
        final(s)@ == defs_demoted(old(s)@, vars@, vt@),
    decreases *old(s), 0nat,
{
    match s {
        Stmt::Block(items) => { demote_defs_vec(items, vars, vt); },
        Stmt::LocalDef { var, .. } => { let var = *var; demote_def(s, var, vars, vt); },
        Stmt::If { then_stmt, else_stmt, .. } => {
            demote_defs(then_stmt, vars, vt);
            demote_defs_opt(else_stmt, vars, vt);
        },
        Stmt::While { body, .. } => { demote_defs(body, vars, vt); },
        Stmt::DoWhile { body, .. } => { demote_defs(body, vars, vt); },
        Stmt::For { init, body, .. } => {
            demote_defs_vec(init, vars, vt);
            demote_defs(body, vars, vt);
        },
        Stmt::ForEach { body, .. } => { demote_defs(body, vars, vt); },
        Stmt::Switch { cases, default, .. } => {
            demote_defs_cases(cases, vars, vt);
            demote_defs_opt(default, vars, vt);
        },
        Stmt::Try { body, catches, finally } => {
            demote_defs(body, vars, vt);
            demote_defs_catches(catches, vars, vt);
            demote_defs_opt(finally, vars, vt);
        },
        Stmt::TryWithResources { resources, body, catches, finally } => {
            demote_resources(resources, vars, vt);
            demote_defs(body, vars, vt);
            demote_defs_catches(catches, vars, vt);
            demote_defs_opt(finally, vars, vt);
        },
        Stmt::Synchronized { body, .. } => { demote_defs(body, vars, vt); },
        Stmt::Labeled { body, .. } => { demote_defs(body, vars, vt); },
        _ => {},
    }
}

/// `demote_defs` where there is a value.
pub fn demote_defs_opt(o: &mut Option<Box<Stmt>>, vars: &HashSet<u32>, vt: &VarTable)
    ensures
        opt_stmt(*final(o)) == defs_demoted_opt(opt_stmt(*old(o)), vars@, vt@),
    decreases *old(o), 0nat,
{
    if let Some(x) = o {
        demote_defs(x, vars, vt);
    }
}

/// `demote_defs` over a list.
#[verifier::loop_isolation(false)]
pub fn demote_defs_vec(v: &mut Vec<Stmt>, vars: &HashSet<u32>, vt: &VarTable)
    ensures
        stmts(final(v)@) == defs_demoted_seq(stmts(old(v)@), vars@, vt@),
    decreases *old(v), 0nat,
{
    let mut i: usize = 0;
    while i < v.len()
        invariant
            i <= v.len(),
            v.len() == old(v).len(),
            forall|j: int|
                0 <= j < i ==> (#[trigger] v@[j])@ == defs_demoted(old(v)@[j]@, vars@, vt@),
            forall|j: int| i <= j < v.len() ==> #[trigger] v@[j] == old(v)@[j],
        decreases v.len() - i,
    {
        assert(decreases_to!(*old(v) => v@[i as int]));
        demote_defs(&mut v[i], vars, vt);
        i += 1;
    }
    assert(stmts(v@) =~= defs_demoted_seq(stmts(old(v)@), vars@, vt@));
}

/// `demote_defs` inside a switch arm.
pub fn demote_defs_case(c: &mut CaseGroup, vars: &HashSet<u32>, vt: &VarTable)
    ensures
        final(c)@ == defs_demoted_case(old(c)@, vars@, vt@),
    decreases *old(c), 0nat,
{
    demote_defs_vec(&mut c.body, vars, vt);
}

/// `demote_defs` over a list.
#[verifier::loop_isolation(false)]
pub fn demote_defs_cases(v: &mut Vec<CaseGroup>, vars: &HashSet<u32>, vt: &VarTable)
    ensures
        case_groups(final(v)@) == defs_demoted_cases(case_groups(old(v)@), vars@, vt@),
    decreases *old(v), 0nat,
{
    let mut i: usize = 0;
    while i < v.len()
        invariant
            i <= v.len(),
            v.len() == old(v).len(),
            forall|j: int|
                0 <= j < i ==> (#[trigger] v@[j])@ == defs_demoted_case(old(v)@[j]@, vars@, vt@),
            forall|j: int| i <= j < v.len() ==> #[trigger] v@[j] == old(v)@[j],
        decreases v.len() - i,
    {
        assert(decreases_to!(*old(v) => v@[i as int]));
        demote_defs_case(&mut v[i], vars, vt);
        i += 1;
    }
    assert(case_groups(v@) =~= defs_demoted_cases(case_groups(old(v)@), vars@, vt@));
}

/// `demote_defs` inside a catch clause.
pub fn demote_defs_catch(c: &mut Catch, vars: &HashSet<u32>, vt: &VarTable)
    ensures
        final(c)@ == defs_demoted_catch(old(c)@, vars@, vt@),
    decreases *old(c), 0nat,
{
    demote_defs(&mut c.body, vars, vt);
}

/// `demote_defs` over a list.
#[verifier::loop_isolation(false)]
pub fn demote_defs_catches(v: &mut Vec<Catch>, vars: &HashSet<u32>, vt: &VarTable)
    ensures
        catch_list(final(v)@) == defs_demoted_catches(catch_list(old(v)@), vars@, vt@),
    decreases *old(v), 0nat,
{
    let mut i: usize = 0;
    while i < v.len()
        invariant
            i <= v.len(),
            v.len() == old(v).len(),
            forall|j: int|
                0 <= j < i ==> (#[trigger] v@[j])@ == defs_demoted_catch(old(v)@[j]@, vars@, vt@),
            forall|j: int| i <= j < v.len() ==> #[trigger] v@[j] == old(v)@[j],
        decreases v.len() - i,
    {
        assert(decreases_to!(*old(v) => v@[i as int]));
        demote_defs_catch(&mut v[i], vars, vt);
        i += 1;
    }
    assert(catch_list(v@) =~= defs_demoted_catches(catch_list(old(v)@), vars@, vt@));
}

/// `demote_resource` over a list.
#[verifier::loop_isolation(false)]
pub fn demote_resources(v: &mut Vec<Stmt>, vars: &HashSet<u32>, vt: &VarTable)
    ensures
        stmts(final(v)@) == resources_demoted(stmts(old(v)@), vars@, vt@),
    decreases *old(v), 1nat,
{
    let mut i: usize = 0;
    while i < v.len()
        invariant
            i <= v.len(),
            v.len() == old(v).len(),
            forall|j: int|
                0 <= j < i ==> (#[trigger] v@[j])@ == resource_demoted(old(v)@[j]@, vars@, vt@),
            forall|j: int| i <= j < v.len() ==> #[trigger] v@[j] == old(v)@[j],
        decreases v.len() - i,
    {
        assert(decreases_to!(*old(v) => v@[i as int]));
        demote_resource(&mut v[i], vars, vt);
        i += 1;
    }
    assert(stmts(v@) =~= resources_demoted(stmts(old(v)@), vars@, vt@));
}

/// `demote_defs` on a resource.
fn demote_resource(s: &mut Stmt, vars: &HashSet<u32>, vt: &VarTable)
    ensures
        final(s)@ == resource_demoted(old(s)@, vars@, vt@),
    decreases *old(s), 1nat,
{
    if !matches!(s, Stmt::LocalDef { .. }) {
        demote_defs(s, vars, vt);
    }
}

/// Turns one declaration into an assignment.
fn demote_def(s: &mut Stmt, var: u32, vars: &HashSet<u32>, vt: &VarTable)
    requires
        old(s)@ matches StmtV::LocalDef { var: v, .. } && v == var,
    ensures
        final(s)@ == defs_demoted(old(s)@, vars@, vt@),
{
    if vars.contains(&var) {
        match take_stmt(s) {
            Stmt::LocalDef { init: Some(e), .. } => {
                *s = make_store(var, &vt.var_type(var), e);
            },
            _ => {},
        }
    }
}

// ---------------------------------------------------------------------
// Loop bodies as places of declaration.

/// A step down to a child statement.
#[derive(Debug, Clone, Copy, PartialEq, Eq, Structural)]
pub enum SlotStep {
    LoopBody,
    VecChild(usize),
    TryBody,
    Catch(usize),
    Finally,
    Then,
    Else,
    WrapperBody,
}

/// Index of the only statement of `v` that mentions `var`.
pub open spec fn sole_mention(v: Seq<StmtV>, var: u32) -> Option<int>
    decreases v.len(),
{
    if v.len() == 0 {
        None
    } else if mentions(v.last(), var) {
        if any_mention(v.drop_last(), var) {
            None
        } else {
            Some(v.len() - 1)
        }
    } else {
        sole_mention(v.drop_last(), var)
    }
}

/// Some statement of `v` mentions `var`.
pub open spec fn any_mention(v: Seq<StmtV>, var: u32) -> bool {
    exists|i: int| 0 <= i < v.len() && mentions(#[trigger] v[i], var)
}

/// Index of the only catch body that mentions `var`.
pub open spec fn sole_catch(v: Seq<CatchV>, var: u32) -> Option<int>
    decreases v.len(),
{
    if v.len() == 0 {
        None
    } else if mentions(*v.last().body, var) {
        if any_catch(v.drop_last(), var) {
            None
        } else {
            Some(v.len() - 1)
        }
    } else {
        sole_catch(v.drop_last(), var)
    }
}

/// Some catch body mentions `var`.
pub open spec fn any_catch(v: Seq<CatchV>, var: u32) -> bool {
    exists|i: int| 0 <= i < v.len() && mentions(*(#[trigger] v[i]).body, var)
}

/// An optional statement mentions `var`.
pub open spec fn opt_mentions(o: Option<Box<StmtV>>, var: u32) -> bool {
    o matches Some(s) && mentions(*s, var)
}

/// A path with one more step in front.
pub open spec fn stepped(step: SlotStep, p: Option<Seq<SlotStep>>) -> Option<Seq<SlotStep>> {
    match p {
        Some(rest) => Some(seq![step] + rest),
        None => None,
    }
}

/// `s` itself mentions `var`: in a condition, a header, a lock or a list of resources.
pub open spec fn head_mentions(s: StmtV, var: u32) -> bool {
    match s {
        StmtV::If { cond, .. } => uses_local(cond, var),
        StmtV::While { cond, .. } => uses_local(cond, var),
        StmtV::DoWhile { cond, .. } => uses_local(cond, var),
        StmtV::For { init, cond, update, .. } => any_mention(init, var) || uses_local_oexpr(
            cond,
            var,
        ) || uses_local_exprs(update, var),
        StmtV::ForEach { var: v, iterable, .. } => v == var || uses_local(iterable, var),
        StmtV::Try { catches, .. } => binds(catches, var),
        StmtV::TryWithResources { resources, catches, .. } => any_mention(resources, var) || binds(
            catches,
            var,
        ),
        StmtV::Synchronized { lock, .. } => uses_local(lock, var),
        _ => false,
    }
}

/// Some catch clause binds `var`.
pub open spec fn binds(catches: Seq<CatchV>, var: u32) -> bool {
    exists|i: int| 0 <= i < catches.len() && (#[trigger] catches[i]).var == var
}

/// The path from `s` to the innermost loop body that holds every mention of `var`
/// in `s`: down through the only child that mentions it.
pub open spec fn loop_path(s: StmtV, var: u32) -> Option<Seq<SlotStep>>
    decreases s, 1nat,
{
    if head_mentions(s, var) {
        None
    } else {
        child_path(s, var)
    }
}

/// [`loop_path`] where `s` itself does not mention `var`.
pub open spec fn child_path(s: StmtV, var: u32) -> Option<Seq<SlotStep>>
    decreases s, 0nat,
{
    match s {
        StmtV::While { body, .. } => loop_body_path(*body, var),
        StmtV::DoWhile { body, .. } => loop_body_path(*body, var),
        StmtV::For { body, .. } => loop_body_path(*body, var),
        StmtV::ForEach { body, .. } => loop_body_path(*body, var),
        StmtV::Block(v) => match sole_mention(v, var) {
            Some(i) => if 0 <= i < v.len() {
                stepped(SlotStep::VecChild(i as usize), loop_path(v[i], var))
            } else {
                None
            },
            None => None,
        },
        StmtV::Try { body, catches, finally } => if mentions(*body, var) {
            if any_catch(catches, var) || opt_mentions(finally, var) {
                None
            } else {
                stepped(SlotStep::TryBody, loop_path(*body, var))
            }
        } else if opt_mentions(finally, var) {
            if any_catch(catches, var) {
                None
            } else {
                opt_path(finally, SlotStep::Finally, var)
            }
        } else {
            catch_path(catches, var)
        },
        StmtV::TryWithResources { body, catches, finally, .. } => if mentions(*body, var) {
            if any_catch(catches, var) || opt_mentions(finally, var) {
                None
            } else {
                stepped(SlotStep::TryBody, loop_path(*body, var))
            }
        } else if opt_mentions(finally, var) {
            if any_catch(catches, var) {
                None
            } else {
                opt_path(finally, SlotStep::Finally, var)
            }
        } else {
            catch_path(catches, var)
        },
        StmtV::If { then_stmt, else_stmt, .. } => if mentions(*then_stmt, var) {
            if opt_mentions(else_stmt, var) {
                None
            } else {
                stepped(SlotStep::Then, loop_path(*then_stmt, var))
            }
        } else if opt_mentions(else_stmt, var) {
            opt_path(else_stmt, SlotStep::Else, var)
        } else {
            None
        },
        StmtV::Labeled { body, .. } => if mentions(*body, var) {
            stepped(SlotStep::WrapperBody, loop_path(*body, var))
        } else {
            None
        },
        StmtV::Synchronized { body, .. } => if mentions(*body, var) {
            stepped(SlotStep::WrapperBody, loop_path(*body, var))
        } else {
            None
        },
        _ => None,
    }
}

/// The path from a loop with that body.
pub open spec fn loop_body_path(body: StmtV, var: u32) -> Option<Seq<SlotStep>>
    decreases body, 2nat,
{
    if !mentions(body, var) {
        None
    } else {
        match loop_path(body, var) {
            Some(rest) => Some(seq![SlotStep::LoopBody] + rest),
            None => Some(seq![SlotStep::LoopBody]),
        }
    }
}

/// The path through an optional statement.
pub open spec fn opt_path(o: Option<Box<StmtV>>, step: SlotStep, var: u32) -> Option<Seq<SlotStep>>
    decreases o, 0nat,
{
    match o {
        Some(s) => stepped(step, loop_path(*s, var)),
        None => None,
    }
}

/// The path through the only catch clause that mentions `var`.
pub open spec fn catch_path(catches: Seq<CatchV>, var: u32) -> Option<Seq<SlotStep>>
    decreases catches, 0nat,
{
    match sole_catch(catches, var) {
        Some(i) => if 0 <= i < catches.len() {
            one_catch_path(catches[i], i, var)
        } else {
            None
        },
        None => None,
    }
}

/// The path through catch clause number `i`.
pub open spec fn one_catch_path(c: CatchV, i: int, var: u32) -> Option<Seq<SlotStep>>
    decreases c, 0nat,
{
    stepped(SlotStep::Catch(i as usize), loop_path(*c.body, var))
}

/// Model of an optional path.
pub open spec fn opt_steps(o: Option<Vec<SlotStep>>) -> Option<Seq<SlotStep>> {
    match o {
        Some(v) => Some(v@),
        None => None,
    }
}

/// Puts a step in front of a path.
fn step_down(step: SlotStep, p: Option<Vec<SlotStep>>) -> (r: Option<Vec<SlotStep>>)
    ensures
        opt_steps(r) == stepped(step, opt_steps(p)),
{
    match p {
        Some(rest) => {
            let mut rest = rest;
            let ghost before = rest@;
            rest.insert(0, step);
            assert(rest@ =~= seq![step] + before);
            Some(rest)
        },
        None => None,
    }
}

/// Whether an optional statement mentions `var`.
fn opt_mentions_var(o: &Option<Box<Stmt>>, var: u32) -> (r: bool)
    ensures
        r == opt_mentions(opt_stmt(*o), var),
{
    match o {
        Some(s) => mentions_var(s, var),
        None => false,
    }
}

/// The path to the innermost loop body that holds every mention of `var`.
pub fn find_loop_decl_path(s: &Stmt, var: u32) -> (r: Option<Vec<SlotStep>>)
    ensures
        opt_steps(r) == loop_path(s@, var),
    decreases s, 0nat,
{
    if heads_with(s, var) {
        return None;
    }
    match s {
        Stmt::While { body, .. } => find_in_loop(body, var),
        Stmt::DoWhile { body, .. } => find_in_loop(body, var),
        Stmt::For { body, .. } => find_in_loop(body, var),
        Stmt::ForEach { body, .. } => find_in_loop(body, var),
        Stmt::Block(v) => {
            match find_sole(v, var) {
                Some(i) => {
                    assert(decreases_to!(v => v@[i as int]));
                    assert(stmts(v@)[i as int] == v@[i as int]@);
                    step_down(SlotStep::VecChild(i), find_loop_decl_path(&v[i], var))
                },
                None => None,
            }
        },
        Stmt::Try { body, catches, finally } => {
            if mentions_var(body, var) {
                if any_catch_mentions(catches, var) || opt_mentions_var(finally, var) {
                    None
                } else {
                    step_down(SlotStep::TryBody, find_loop_decl_path(body, var))
                }
            } else if opt_mentions_var(finally, var) {
                if any_catch_mentions(catches, var) {
                    None
                } else {
                    find_in_opt(finally, SlotStep::Finally, var)
                }
            } else {
                find_in_catches(catches, var)
            }
        },
        Stmt::TryWithResources { body, catches, finally, .. } => {
            if mentions_var(body, var) {
                if any_catch_mentions(catches, var) || opt_mentions_var(finally, var) {
                    None
                } else {
                    step_down(SlotStep::TryBody, find_loop_decl_path(body, var))
                }
            } else if opt_mentions_var(finally, var) {
                if any_catch_mentions(catches, var) {
                    None
                } else {
                    find_in_opt(finally, SlotStep::Finally, var)
                }
            } else {
                find_in_catches(catches, var)
            }
        },
        Stmt::If { then_stmt, else_stmt, .. } => {
            if mentions_var(then_stmt, var) {
                if opt_mentions_var(else_stmt, var) {
                    None
                } else {
                    step_down(SlotStep::Then, find_loop_decl_path(then_stmt, var))
                }
            } else if opt_mentions_var(else_stmt, var) {
                find_in_opt(else_stmt, SlotStep::Else, var)
            } else {
                None
            }
        },
        Stmt::Labeled { body, .. } => if mentions_var(body, var) {
            step_down(SlotStep::WrapperBody, find_loop_decl_path(body, var))
        } else {
            None
        },
        Stmt::Synchronized { body, .. } => if mentions_var(body, var) {
            step_down(SlotStep::WrapperBody, find_loop_decl_path(body, var))
        } else {
            None
        },
        _ => None,
    }
}

/// Whether `e` uses `var`.
fn expr_mentions(e: &Expr, var: u32) -> (r: bool)
    ensures
        r == uses_local(e@, var),
{
    let mut used: HashSet<u32> = HashSet::new();
    expr_uses(e, &mut used);
    used.contains(&var)
}

/// Whether some statement of `v` mentions `var`.
fn any_mentions(v: &Vec<Stmt>, var: u32) -> (r: bool)
    ensures
        r == any_mention(stmts(v@), var),
{
    let mut i: usize = 0;
    while i < v.len()
        invariant
            i <= v.len(),
            forall|j: int| 0 <= j < i ==> !mentions(#[trigger] stmts(v@)[j], var),
        decreases v.len() - i,
    {
        assert(stmts(v@)[i as int] == v@[i as int]@);
        if mentions_var(&v[i], var) {
            return true;
        }
        i += 1;
    }
    false
}

/// Whether some catch clause binds `var`.
fn any_binds(v: &Vec<Catch>, var: u32) -> (r: bool)
    ensures
        r == binds(catch_list(v@), var),
{
    let mut i: usize = 0;
    while i < v.len()
        invariant
            i <= v.len(),
            forall|j: int| 0 <= j < i ==> (#[trigger] catch_list(v@)[j]).var != var,
        decreases v.len() - i,
    {
        assert(catch_list(v@)[i as int] == v@[i as int]@);
        if v[i].var == var {
            return true;
        }
        i += 1;
    }
    false
}

/// Whether `s` itself mentions `var`.
fn heads_with(s: &Stmt, var: u32) -> (r: bool)
    ensures
        r == head_mentions(s@, var),
{
    match s {
        Stmt::If { cond, .. } => expr_mentions(cond, var),
        Stmt::While { cond, .. } => expr_mentions(cond, var),
        Stmt::DoWhile { cond, .. } => expr_mentions(cond, var),
        Stmt::For { init, cond, update, .. } => {
            let mut used: HashSet<u32> = HashSet::new();
            expr_uses_oexpr(cond, &mut used);
            expr_uses_exprs(update, &mut used);
            any_mentions(init, var) || used.contains(&var)
        },
        Stmt::ForEach { var: v, iterable, .. } => *v == var || expr_mentions(iterable, var),
        Stmt::Try { catches, .. } => any_binds(catches, var),
        Stmt::TryWithResources { resources, catches, .. } => any_mentions(resources, var)
            || any_binds(catches, var),
        Stmt::Synchronized { lock, .. } => expr_mentions(lock, var),
        _ => false,
    }
}

/// The path from a loop with that body.
fn find_in_loop(body: &Stmt, var: u32) -> (r: Option<Vec<SlotStep>>)
    ensures
        opt_steps(r) == loop_body_path(body@, var),
    decreases body, 1nat,
{
    if !mentions_var(body, var) {
        return None;
    }
    match find_loop_decl_path(body, var) {
        Some(p) => step_down(SlotStep::LoopBody, Some(p)),
        None => {
            let mut p: Vec<SlotStep> = Vec::new();
            p.push(SlotStep::LoopBody);
            assert(p@ =~= seq![SlotStep::LoopBody]);
            Some(p)
        },
    }
}

/// The path through an optional statement.
fn find_in_opt(o: &Option<Box<Stmt>>, step: SlotStep, var: u32) -> (r: Option<Vec<SlotStep>>)
    ensures
        opt_steps(r) == opt_path(opt_stmt(*o), step, var),
    decreases o, 0nat,
{
    match o {
        Some(s) => step_down(step, find_loop_decl_path(s, var)),
        None => None,
    }
}

/// Index of the only statement that mentions `var`.
#[verifier::loop_isolation(false)]
fn find_sole(v: &Vec<Stmt>, var: u32) -> (r: Option<usize>)
    ensures
        match r {
            Some(i) => i < v.len() && sole_mention(stmts(v@), var) == Some(i as int),
            None => sole_mention(stmts(v@), var) is None,
        },
{
    let ghost all = stmts(v@);
    let mut hit: Option<usize> = None;
    let mut many = false;
    let mut i: usize = 0;
    while i < v.len()
        invariant
            i <= v.len(),
            (hit is Some || many) == any_mention(all.take(i as int), var),
            !many ==> match hit {
                Some(h) => h < i && sole_mention(all.take(i as int), var) == Some(h as int),
                None => sole_mention(all.take(i as int), var) is None,
            },
            many ==> sole_mention(all.take(i as int), var) is None,
            many ==> hit is None,
        decreases v.len() - i,
    {
        let ghost done = all.take(i as int);
        assert(all.take(i + 1).drop_last() =~= done);
        assert(all.take(i + 1).last() == v@[i as int]@);
        assert(
            any_mention(all.take(i + 1), var) == (
                any_mention(done, var) || mentions(v@[i as int]@, var)
            )
        ) by {
            if any_mention(done, var) {
                let j = choose|j: int| 0 <= j < done.len() && mentions(#[trigger] done[j], var);
                assert(all.take(i + 1)[j] == done[j]);
            }
            if mentions(v@[i as int]@, var) {
                assert(all.take(i + 1)[i as int] == v@[i as int]@);
            }
            if any_mention(all.take(i + 1), var) {
                let j = choose|j: int|
                    0 <= j < all.take(i + 1).len() && mentions(#[trigger] all.take(i + 1)[j], var);
                if j < i {
                    assert(done[j] == all.take(i + 1)[j]);
                }
            }
        }
        if mentions_var(&v[i], var) {
            if hit.is_some() || many {
                many = true;
                hit = None;
            } else {
                hit = Some(i);
            }
        }
        i += 1;
    }
    assert(all.take(i as int) =~= all);
    if many {
        None
    } else {
        hit
    }
}

/// Index of the only catch body that mentions `var`.
#[verifier::loop_isolation(false)]
fn find_sole_catch(v: &Vec<Catch>, var: u32) -> (r: Option<usize>)
    ensures
        match r {
            Some(i) => i < v.len() && sole_catch(catch_list(v@), var) == Some(i as int),
            None => sole_catch(catch_list(v@), var) is None,
        },
{
    let ghost all = catch_list(v@);
    let mut hit: Option<usize> = None;
    let mut many = false;
    let mut i: usize = 0;
    while i < v.len()
        invariant
            i <= v.len(),
            (hit is Some || many) == any_catch(all.take(i as int), var),
            !many ==> match hit {
                Some(h) => h < i && sole_catch(all.take(i as int), var) == Some(h as int),
                None => sole_catch(all.take(i as int), var) is None,
            },
            many ==> sole_catch(all.take(i as int), var) is None,
            many ==> hit is None,
        decreases v.len() - i,
    {
        let ghost done = all.take(i as int);
        assert(all.take(i + 1).drop_last() =~= done);
        assert(all.take(i + 1).last() == v@[i as int]@);
        assert(
            any_catch(all.take(i + 1), var) == (
                any_catch(done, var) || mentions(*(v@[i as int]@).body, var)
            )
        ) by {
            if any_catch(done, var) {
                let j = choose|j: int|
                    0 <= j < done.len() && mentions(*(#[trigger] done[j]).body, var);
                assert(all.take(i + 1)[j] == done[j]);
            }
            if mentions(*(v@[i as int]@).body, var) {
                assert(all.take(i + 1)[i as int] == v@[i as int]@);
            }
            if any_catch(all.take(i + 1), var) {
                let j = choose|j: int|
                    0 <= j < all.take(i + 1).len()
                        && mentions(*(#[trigger] all.take(i + 1)[j]).body, var);
                if j < i {
                    assert(done[j] == all.take(i + 1)[j]);
                }
            }
        }
        if mentions_var(&v[i].body, var) {
            if hit.is_some() || many {
                many = true;
                hit = None;
            } else {
                hit = Some(i);
            }
        }
        i += 1;
    }
    assert(all.take(i as int) =~= all);
    if many {
        None
    } else {
        hit
    }
}

/// Whether some catch body mentions `var`.
fn any_catch_mentions(v: &Vec<Catch>, var: u32) -> (r: bool)
    ensures
        r == any_catch(catch_list(v@), var),
{
    let mut i: usize = 0;
    while i < v.len()
        invariant
            i <= v.len(),
            forall|j: int| 0 <= j < i ==> !mentions(*(#[trigger] catch_list(v@)[j]).body, var),
        decreases v.len() - i,
    {
        assert(catch_list(v@)[i as int] == v@[i as int]@);
        if mentions_var(&v[i].body, var) {
            return true;
        }
        i += 1;
    }
    false
}

/// The path through the only catch clause that mentions `var`.
fn find_in_catches(v: &Vec<Catch>, var: u32) -> (r: Option<Vec<SlotStep>>)
    ensures
        opt_steps(r) == catch_path(catch_list(v@), var),
    decreases v, 0nat,
{
    match find_sole_catch(v, var) {
        Some(i) => {
            assert(decreases_to!(v => v@[i as int]));
            assert(catch_list(v@)[i as int] == v@[i as int]@);
            find_in_catch(&v[i], i, var)
        },
        None => None,
    }
}

/// The path through catch clause number `i`.
fn find_in_catch(c: &Catch, i: usize, var: u32) -> (r: Option<Vec<SlotStep>>)
    ensures
        opt_steps(r) == one_catch_path(c@, i as int, var),
    decreases c, 0nat,
{
    step_down(SlotStep::Catch(i), find_loop_decl_path(&c.body, var))
}

/// `s` with a bare declaration of `var` in front.
pub open spec fn decl_in_front(s: StmtV, var: u32) -> StmtV {
    match s {
        StmtV::Block(v) => StmtV::Block(seq![bare(var)] + v),
        _ => StmtV::Block(seq![bare(var), s]),
    }
}

/// `s` with a bare declaration of `var` at the end of `path`; `None` where the
/// path does not fit.
pub open spec fn declared_at(s: StmtV, path: Seq<SlotStep>, var: u32) -> Option<StmtV>
    decreases path.len(), 0nat,
{
    if path.len() == 0 {
        Some(decl_in_front(s, var))
    } else {
        let rest = path.skip(1);
        match path[0] {
            SlotStep::VecChild(i) => declared_in_block(s, i as int, rest, var),
            SlotStep::LoopBody | SlotStep::WrapperBody => declared_in_body(s, rest, var),
            SlotStep::Then | SlotStep::Else => declared_in_if(s, path[0] is Then, rest, var),
            SlotStep::TryBody | SlotStep::Finally | SlotStep::Catch(_) => declared_in_try(
                s,
                path[0],
                rest,
                var,
            ),
        }
    }
}

/// [`declared_at`] through statement `i` of a block.
pub open spec fn declared_in_block(s: StmtV, i: int, rest: Seq<SlotStep>, var: u32) -> Option<StmtV>
    decreases rest.len(), 1nat,
{
    match s {
        StmtV::Block(v) => if 0 <= i < v.len() {
            match declared_at(v[i], rest, var) {
                Some(x) => Some(StmtV::Block(v.update(i, x))),
                None => None,
            }
        } else {
            None
        },
        _ => None,
    }
}

/// [`declared_at`] through a branch of an `if`.
pub open spec fn declared_in_if(
    s: StmtV,
    in_then: bool,
    rest: Seq<SlotStep>,
    var: u32,
) -> Option<StmtV>
    decreases rest.len(), 2nat,
{
    match s {
        StmtV::If { cond, then_stmt, else_stmt } => if in_then {
            match declared_at(*then_stmt, rest, var) {
                Some(x) => Some(StmtV::If { cond, then_stmt: Box::new(x), else_stmt }),
                None => None,
            }
        } else {
            match declared_in_opt(else_stmt, rest, var) {
                Some(x) => Some(StmtV::If { cond, then_stmt, else_stmt: x }),
                None => None,
            }
        },
        _ => None,
    }
}

/// [`declared_at`] through the body of a loop, label or `synchronized` block.
pub open spec fn declared_in_body(s: StmtV, rest: Seq<SlotStep>, var: u32) -> Option<StmtV>
    decreases rest.len(), 1nat,
{
    match s {
        StmtV::While { cond, body } => match declared_at(*body, rest, var) {
            Some(x) => Some(StmtV::While { cond, body: Box::new(x) }),
            None => None,
        },
        StmtV::DoWhile { body, cond } => match declared_at(*body, rest, var) {
            Some(x) => Some(StmtV::DoWhile { body: Box::new(x), cond }),
            None => None,
        },
        StmtV::For { init, cond, update, body } => match declared_at(*body, rest, var) {
            Some(x) => Some(StmtV::For { init, cond, update, body: Box::new(x) }),
            None => None,
        },
        StmtV::ForEach { var: each, iterable, is_array, body } => match declared_at(
            *body,
            rest,
            var,
        ) {
            Some(x) => Some(StmtV::ForEach { var: each, iterable, is_array, body: Box::new(x) }),
            None => None,
        },
        StmtV::Labeled { label, body } => match declared_at(*body, rest, var) {
            Some(x) => Some(StmtV::Labeled { label, body: Box::new(x) }),
            None => None,
        },
        StmtV::Synchronized { lock, body } => match declared_at(*body, rest, var) {
            Some(x) => Some(StmtV::Synchronized { lock, body: Box::new(x) }),
            None => None,
        },
        _ => None,
    }
}

/// [`declared_at`] through a part of a `try`.
pub open spec fn declared_in_try(s: StmtV, step: SlotStep, rest: Seq<SlotStep>, var: u32) -> Option<
    StmtV,
>
    decreases rest.len(), 2nat,
{
    match s {
        StmtV::Try { body, catches, finally } => match step {
            SlotStep::TryBody => match declared_at(*body, rest, var) {
                Some(x) => Some(StmtV::Try { body: Box::new(x), catches, finally }),
                None => None,
            },
            SlotStep::Finally => match declared_in_opt(finally, rest, var) {
                Some(x) => Some(StmtV::Try { body, catches, finally: x }),
                None => None,
            },
            SlotStep::Catch(i) => match declared_in_catch(catches, i as int, rest, var) {
                Some(x) => Some(StmtV::Try { body, catches: x, finally }),
                None => None,
            },
            _ => None,
        },
        StmtV::TryWithResources { resources, body, catches, finally } => match step {
            SlotStep::TryBody => match declared_at(*body, rest, var) {
                Some(x) => Some(
                    StmtV::TryWithResources { resources, body: Box::new(x), catches, finally }
                ),
                None => None,
            },
            SlotStep::Finally => match declared_in_opt(finally, rest, var) {
                Some(x) => Some(StmtV::TryWithResources { resources, body, catches, finally: x }),
                None => None,
            },
            SlotStep::Catch(i) => match declared_in_catch(catches, i as int, rest, var) {
                Some(x) => Some(StmtV::TryWithResources { resources, body, catches: x, finally }),
                None => None,
            },
            _ => None,
        },
        _ => None,
    }
}

/// [`declared_at`] through an optional statement.
pub open spec fn declared_in_opt(
    o: Option<Box<StmtV>>,
    path: Seq<SlotStep>,
    var: u32,
) -> Option<Option<Box<StmtV>>>
    decreases path.len(), 1nat,
{
    match o {
        Some(s) => match declared_at(*s, path, var) {
            Some(x) => Some(Some(Box::new(x))),
            None => None,
        },
        None => None,
    }
}

/// [`declared_at`] through catch clause number `i`.
pub open spec fn declared_in_catch(
    v: Seq<CatchV>,
    i: int,
    path: Seq<SlotStep>,
    var: u32,
) -> Option<Seq<CatchV>>
    decreases path.len(), 1nat,
{
    if 0 <= i < v.len() {
        match declared_at(*v[i].body, path, var) {
            Some(x) => Some(v.update(i, CatchV { body: Box::new(x), ..v[i] })),
            None => None,
        }
    } else {
        None
    }
}

/// Puts a bare declaration of `var` in front of `s`.
fn put_decl(s: &mut Stmt, var: u32)
    ensures
        final(s)@ == decl_in_front(old(s)@, var),
{
    match take_stmt(s) {
        Stmt::Block(v) => {
            let mut v = v;
            let ghost before = v@;
            v.insert(0, bare_def(var));
            assert(stmts(v@) =~= seq![bare(var)] + stmts(before));
            *s = Stmt::Block(v);
        },
        other => {
            let ghost x = other@;
            let mut v: Vec<Stmt> = Vec::new();
            v.push(bare_def(var));
            v.push(other);
            assert(stmts(v@) =~= seq![bare(var), x]);
            *s = Stmt::Block(v);
        },
    }
}

/// Puts a bare declaration of `var` at the end of `path`, from step `k` on;
/// whether the path fits.
pub fn declare_at(s: &mut Stmt, path: &Vec<SlotStep>, k: usize, var: u32) -> (done: bool)
    requires
        k <= path.len(),
    ensures
        match declared_at(old(s)@, path@.skip(k as int), var) {
            Some(x) => done && final(s)@ == x,
            None => !done && final(s)@ == old(s)@,
        },
    decreases path.len() - k, 0nat,
{
    if k == path.len() {
        put_decl(s, var);
        return true;
    }
    assert(path@.skip(k as int).skip(1) =~= path@.skip(k + 1));
    assert(path@.skip(k as int)[0] == path@[k as int]);
    match path[k] {
        SlotStep::VecChild(i) => declare_in_block(s, i, path, k + 1, var),
        SlotStep::LoopBody | SlotStep::WrapperBody => declare_in_body(s, path, k + 1, var),
        SlotStep::Then => declare_in_if(s, true, path, k + 1, var),
        SlotStep::Else => declare_in_if(s, false, path, k + 1, var),
        SlotStep::TryBody | SlotStep::Finally | SlotStep::Catch(_) => declare_in_try(
            s,
            path[k],
            path,
            k + 1,
            var,
        ),
    }
}

/// `declare_at` through statement `i` of a block.
fn declare_in_block(
    s: &mut Stmt,
    i: usize,
    path: &Vec<SlotStep>,
    k: usize,
    var: u32,
) -> (done: bool)
    requires
        k <= path.len(),
    ensures
        match declared_in_block(old(s)@, i as int, path@.skip(k as int), var) {
            Some(x) => done && final(s)@ == x,
            None => !done && final(s)@ == old(s)@,
        },
    decreases path.len() - k, 1nat,
{
    match s {
        Stmt::Block(v) => {
            assert(stmts(v@).len() == v@.len());
            if i >= v.len() {
                return false;
            }
            let ghost before = stmts(v@);
            assert(before[i as int] == v@[i as int]@);
            let done = declare_at(&mut v[i], path, k, var);
            assert(stmts(v@) =~= before.update(i as int, v@[i as int]@));
            assert(!done ==> stmts(v@) =~= before);
            done
        },
        _ => false,
    }
}

/// `declare_at` through a branch of an `if`.
fn declare_in_if(
    s: &mut Stmt,
    in_then: bool,
    path: &Vec<SlotStep>,
    k: usize,
    var: u32,
) -> (done: bool)
    requires
        k <= path.len(),
    ensures
        match declared_in_if(old(s)@, in_then, path@.skip(k as int), var) {
            Some(x) => done && final(s)@ == x,
            None => !done && final(s)@ == old(s)@,
        },
    decreases path.len() - k, 2nat,
{
    match s {
        Stmt::If { then_stmt, else_stmt, .. } => if in_then {
            declare_at(then_stmt, path, k, var)
        } else {
            declare_in_opt(else_stmt, path, k, var)
        },
        _ => false,
    }
}

/// `declare_at` through the body of a loop, label or `synchronized` block.
fn declare_in_body(s: &mut Stmt, path: &Vec<SlotStep>, k: usize, var: u32) -> (done: bool)
    requires
        k <= path.len(),
    ensures
        match declared_in_body(old(s)@, path@.skip(k as int), var) {
            Some(x) => done && final(s)@ == x,
            None => !done && final(s)@ == old(s)@,
        },
    decreases path.len() - k, 1nat,
{
    match s {
        Stmt::While { body, .. } => declare_at(body, path, k, var),
        Stmt::DoWhile { body, .. } => declare_at(body, path, k, var),
        Stmt::For { body, .. } => declare_at(body, path, k, var),
        Stmt::ForEach { body, .. } => declare_at(body, path, k, var),
        Stmt::Labeled { body, .. } => declare_at(body, path, k, var),
        Stmt::Synchronized { body, .. } => declare_at(body, path, k, var),
        _ => false,
    }
}

/// `declare_at` through a part of a `try`.
fn declare_in_try(
    s: &mut Stmt,
    step: SlotStep,
    path: &Vec<SlotStep>,
    k: usize,
    var: u32,
) -> (done: bool)
    requires
        k <= path.len(),
    ensures
        match declared_in_try(old(s)@, step, path@.skip(k as int), var) {
            Some(x) => done && final(s)@ == x,
            None => !done && final(s)@ == old(s)@,
        },
    decreases path.len() - k, 2nat,
{
    match s {
        Stmt::Try { body, catches, finally } => match step {
            SlotStep::TryBody => declare_at(body, path, k, var),
            SlotStep::Finally => declare_in_opt(finally, path, k, var),
            SlotStep::Catch(i) => declare_in_catch(catches, i, path, k, var),
            _ => false,
        },
        Stmt::TryWithResources { body, catches, finally, .. } => match step {
            SlotStep::TryBody => declare_at(body, path, k, var),
            SlotStep::Finally => declare_in_opt(finally, path, k, var),
            SlotStep::Catch(i) => declare_in_catch(catches, i, path, k, var),
            _ => false,
        },
        _ => false,
    }
}

/// `declare_at` through an optional statement.
fn declare_in_opt(
    o: &mut Option<Box<Stmt>>,
    path: &Vec<SlotStep>,
    k: usize,
    var: u32,
) -> (done: bool)
    requires
        k <= path.len(),
    ensures
        match declared_in_opt(opt_stmt(*old(o)), path@.skip(k as int), var) {
            Some(x) => done && opt_stmt(*final(o)) == x,
            None => !done && opt_stmt(*final(o)) == opt_stmt(*old(o)),
        },
    decreases path.len() - k, 1nat,
{
    match o {
        Some(s) => declare_at(s, path, k, var),
        None => false,
    }
}

/// `declare_at` through catch clause number `i`.
fn declare_in_catch(
    v: &mut Vec<Catch>,
    i: usize,
    path: &Vec<SlotStep>,
    k: usize,
    var: u32,
) -> (done: bool)
    requires
        k <= path.len(),
    ensures
        match declared_in_catch(catch_list(old(v)@), i as int, path@.skip(k as int), var) {
            Some(x) => done && catch_list(final(v)@) == x,
            None => !done && catch_list(final(v)@) == catch_list(old(v)@),
        },
    decreases path.len() - k, 1nat,
{
    if i < v.len() {
        let ghost before = catch_list(v@);
        assert(before[i as int] == v@[i as int]@);
        let done = declare_at(&mut v[i].body, path, k, var);
        assert(
            v@[i as int]@ == (CatchV { body: Box::new(v@[i as int].body@), ..before[i as int] })
        );
        assert(catch_list(v@) =~= before.update(i as int, v@[i as int]@));
        assert(!done ==> catch_list(v@) =~= before);
        done
    } else {
        false
    }
}

// ---------------------------------------------------------------------
// Initial values.

/// Initial value of a declaration made up for `v`: zero or `null`; none for a
/// parameter.
pub open spec fn default_init(vt: VarTableV, v: u32) -> Option<ExprV> {
    if is_param(vt, v) {
        None
    } else {
        Some(
            ExprV::Const(
                match erase(var_type(vt, v)) {
                    JTypeV::Int | JTypeV::Short | JTypeV::Byte | JTypeV::Char | JTypeV::Boolean =>
                        ConstValV::Int(0),
                    JTypeV::Long => ConstValV::Long(0),
                    JTypeV::Float => ConstValV::Float(0),
                    JTypeV::Double => ConstValV::Double(0),
                    _ => ConstValV::Null,
                },
            ),
        )
    }
}

/// Initial value of a declaration made up for `v`.
pub fn default_init_for(vt: &VarTable, v: u32) -> (r: Option<Expr>)
    ensures
        opt_expr(r) == default_init(vt@, v),
{
    if vt.is_param(v) {
        return None;
    }
    let c = match vt.var_type(v).erased() {
        JType::Int | JType::Short | JType::Byte | JType::Char | JType::Boolean => ConstVal::Int(0),
        JType::Long => ConstVal::Long(0),
        JType::Float => ConstVal::Float(0),
        JType::Double => ConstVal::Double(0),
        _ => ConstVal::Null,
    };
    Some(Expr::Const(c))
}

// ---------------------------------------------------------------------
// Escaped variables.

/// The variables of `body` that are used outside the scope of their declaration.
/// The second scan knows every declaration.
pub open spec fn escaped_vars(body: StmtV) -> Set<u32> {
    let start = EscapesV { open: seq![], ever: Set::empty(), escaped: Set::empty() };
    let once = scanned(body, start);
    let twice = scanned(body, EscapesV { open: seq![], ..once });
    twice.escaped.remove(u32::MAX)
}

/// The path to a loop body for a captured variable.
pub open spec fn capture_path(body: StmtV, var: u32) -> Option<Seq<SlotStep>> {
    if anon_captures(body, var) || lambda_captures(body, var) {
        loop_path(body, var)
    } else {
        None
    }
}

/// `body` with a declaration of each of `l` that has a path, in order; those that
/// could be placed.
pub open spec fn loop_declared(
    paths_of: StmtV,
    body: StmtV,
    l: Seq<u32>,
) -> (StmtV, Set<u32>)
    decreases l.len(),
{
    if l.len() == 0 {
        (body, Set::empty())
    } else {
        let (b, done) = loop_declared(paths_of, body, l.drop_last());
        match capture_path(paths_of, l.last()) {
            Some(p) => match declared_at(b, p, l.last()) {
                Some(x) => (x, done.insert(l.last())),
                None => (b, done),
            },
            None => (b, done),
        }
    }
}

/// The declaration of an escaped variable at the top of `body`: a variable that an
/// anonymous class captures gets no initial value, unless `null` is what the body
/// gives it first.
pub open spec fn top_decl(body: StmtV, vt: VarTableV, var: u32) -> StmtV {
    StmtV::LocalDef {
        var,
        init: if anon_captures(body, var) && !(given_null(body, var) && (
        body matches StmtV::Block(items) && null_first(items, var))) {
            None
        } else {
            default_init(vt, var)
        },
        is_final: false,
        force_type: true,
    }
}

/// Declarations of `l` at the top of `body`.
pub open spec fn top_decls(body: StmtV, vt: VarTableV, l: Seq<u32>) -> Seq<StmtV> {
    Seq::new(l.len(), |i: int| top_decl(body, vt, l[i]))
}

/// `body` with the declarations of its escaped variables hoisted: those that a
/// lambda or anonymous class captures go into the loop body that holds all their
/// mentions, largest first, the others to the top.
pub open spec fn escaped_hoisted(body: StmtV, vt: VarTableV) -> StmtV {
    let escaped = escaped_vars(body);
    let plain = rethrows_dropped(body);
    if escaped == Set::<u32>::empty() {
        plain
    } else {
        let demoted = defs_demoted(plain, escaped, vt);
        let (placed, done) = loop_declared(plain, demoted, in_order(escaped).reverse());
        let rest = in_order(escaped.difference(done));
        with_decls(placed, top_decls(placed, vt, rest))
    }
}

/// The declaration of an escaped variable at the top of `body`.
fn make_top_decl(body: &Stmt, vt: &VarTable, var: u32) -> (r: Stmt)
    ensures
        r@ == top_decl(body@, vt@, var),
{
    let bare_one = captured_by_anon(body, var) && !(assigns_null_to(body, var)
        && straight_null_init(
        body,
        var,
    ));
    Stmt::LocalDef {
        var,
        init: if bare_one {
            None
        } else {
            default_init_for(vt, var)
        },
        is_final: false,
        force_type: true,
    }
}

/// The path to a loop body for a captured variable.
fn find_capture_path(body: &Stmt, var: u32) -> (r: Option<Vec<SlotStep>>)
    ensures
        opt_steps(r) == capture_path(body@, var),
{
    if captured_by_anon(body, var) || captured_by_lambda(body, var) {
        find_loop_decl_path(body, var)
    } else {
        None
    }
}

/// The paths of `l`, in reverse.
#[verifier::loop_isolation(false)]
fn capture_paths(body: &Stmt, l: &Vec<u32>) -> (r: Vec<Option<Vec<SlotStep>>>)
    ensures
        r.len() == l.len(),
        forall|i: int|
            0 <= i < r.len() ==> opt_steps(#[trigger] r@[i]) == capture_path(
                body@,
                l@.reverse()[i],
            ),
{
    let mut r: Vec<Option<Vec<SlotStep>>> = Vec::new();
    let mut i: usize = 0;
    while i < l.len()
        invariant
            i <= l.len(),
            r.len() == i,
            forall|j: int|
                0 <= j < i ==> opt_steps(#[trigger] r@[j]) == capture_path(body@, l@.reverse()[j]),
        decreases l.len() - i,
    {
        assert(l@.reverse()[i as int] == l@[l@.len() - 1 - i]);
        r.push(find_capture_path(body, l[l.len() - 1 - i]));
        i += 1;
    }
    r
}

/// The top declarations of `l`.
fn make_top_decls(body: &Stmt, vt: &VarTable, l: &Vec<u32>) -> (r: Vec<Stmt>)
    ensures
        stmts(r@) == top_decls(body@, vt@, l@),
{
    let mut r: Vec<Stmt> = Vec::new();
    let mut i: usize = 0;
    while i < l.len()
        invariant
            i <= l.len(),
            r.len() == i,
            forall|j: int| 0 <= j < i ==> (#[trigger] r@[j])@ == top_decl(body@, vt@, l@[j]),
        decreases l.len() - i,
    {
        r.push(make_top_decl(body, vt, l[i]));
        i += 1;
    }
    assert(stmts(r@) =~= top_decls(body@, vt@, l@));
    r
}

/// The members of `a` that are not in `b`.
#[verifier::loop_isolation(false)]
pub fn difference(a: &HashSet<u32>, b: &HashSet<u32>) -> (r: HashSet<u32>)
    ensures
        r@ == a@.difference(b@),
{
    let l = sorted_ids(a);
    let mut r: HashSet<u32> = HashSet::new();
    let mut i: usize = 0;
    while i < l.len()
        invariant
            i <= l.len(),
            forall|v: u32| #[trigger]
                r@.contains(v)
                    <==> !b@.contains(v) && exists|j: int| 0 <= j < i && #[trigger] l@[j] == v,
        decreases l.len() - i,
    {
        if !b.contains(&l[i]) {
            r.insert(l[i]);
        }
        i += 1;
    }
    assert(r@ =~= a@.difference(b@)) by {
        assert forall|v: u32| #[trigger] r@.contains(v) <==> a@.difference(b@).contains(v) by {
            assert(l@.contains(v) <==> a@.contains(v));
        }
    }
    r
}

/// Moves the declarations of variables that are used outside their scope to where
/// every use sees them.
#[verifier::loop_isolation(false)]
pub fn hoist_escaped_vars(body: &mut Stmt, vt: &VarTable)
    ensures
        final(body)@ == escaped_hoisted(old(body)@, vt@),
{
    let mut st = Escapes { open: Vec::new(), ever: HashSet::new(), escaped: HashSet::new() };
    assert(st.open@ =~= seq![]);
    escape_scan(body, &mut st);
    st.open = Vec::new();
    assert(st.open@ =~= seq![]);
    escape_scan(body, &mut st);
    let mut escaped = st.escaped;
    escaped.remove(&u32::MAX);
    assert(escaped@ =~= escaped_vars(body@));
    drop_rethrows(body);
    if escaped.is_empty() {
        return ;
    }
    let l = sorted_ids(&escaped);
    let ghost plain = body@;
    let ghost order = in_order(escaped@).reverse();
    let paths = capture_paths(body, &l);
    demote_defs(body, &escaped, vt);
    let ghost demoted = body@;
    let mut done: HashSet<u32> = HashSet::new();
    let mut i: usize = 0;
    assert(order.take(0) =~= seq![]);
    assert(done@ =~= Set::<u32>::empty());
    while i < l.len()
        invariant
            i <= l.len(),
            (body@, done@) == loop_declared(plain, demoted, order.take(i as int)),
        decreases l.len() - i,
    {
        assert(order.take(i + 1).drop_last() =~= order.take(i as int));
        let var = l[l.len() - 1 - i];
        assert(order[i as int] == var);
        assert(order.take(i + 1).last() == var);
        if let Some(p) = &paths[i] {
            assert(p@.skip(0) =~= p@);
            if declare_at(body, p, 0, var) {
                done.insert(var);
            }
        }
        i += 1;
    }
    assert(order.take(i as int) =~= order);
    let rest = difference(&escaped, &done);
    let ids = sorted_ids(&rest);
    let decls = make_top_decls(body, vt, &ids);
    prepend_decls(body, decls);
}

// ---------------------------------------------------------------------
// Missing declarations.

/// Used but nowhere declared, and no parameter.
pub open spec fn missing_vars(body: StmtV, vt: VarTableV) -> Set<u32> {
    Set::new(|v: u32| stmt_uses(body, v) && !declares(body, v) && !is_param(vt, v))
}

/// The declaration of a missing variable: without initial value where an anonymous
/// class captures it and nothing gives it `null`.
pub open spec fn missing_decl(body: StmtV, vt: VarTableV, var: u32) -> StmtV {
    StmtV::LocalDef {
        var,
        init: if anon_captures(body, var) && !given_null(body, var) {
            None
        } else {
            default_init(vt, var)
        },
        is_final: false,
        force_type: true,
    }
}

/// Declares, at the top of the body, every variable that is used and nowhere
/// declared, in ascending order.
#[verifier::loop_isolation(false)]
pub fn ensure_declared(vt: &VarTable, body: &mut Stmt)
    ensures
        final(body)@ == with_decls(
            old(body)@,
            in_order(missing_vars(old(body)@, vt@)).map_values(
                |v: u32| missing_decl(old(body)@, vt@, v),
            ),
        ),
{
    let mut decl: HashSet<u32> = HashSet::new();
    let mut used: HashSet<u32> = HashSet::new();
    collect_decl_use(body, &mut decl, &mut used);
    let open = difference(&used, &decl);
    let l = sorted_ids(&open);
    let mut missing: HashSet<u32> = HashSet::new();
    let mut i: usize = 0;
    while i < l.len()
        invariant
            i <= l.len(),
            forall|v: u32| #[trigger]
                missing@.contains(v) <==> !is_param(vt@, v) && exists|j: int|
                    0 <= j < i && #[trigger] l@[j] == v,
        decreases l.len() - i,
    {
        if !vt.is_param(l[i]) {
            missing.insert(l[i]);
        }
        i += 1;
    }
    assert(missing@ =~= missing_vars(body@, vt@)) by {
        assert forall|v: u32|
            #[trigger] missing@.contains(v) <==> missing_vars(body@, vt@).contains(
            v,
        ) by {
            assert(l@.contains(v) <==> open@.contains(v));
        }
    }
    let ids = sorted_ids(&missing);
    let mut decls: Vec<Stmt> = Vec::new();
    let mut i: usize = 0;
    while i < ids.len()
        invariant
            i <= ids.len(),
            decls.len() == i,
            forall|j: int|
                0 <= j < i ==> (#[trigger] decls@[j])@ == missing_decl(body@, vt@, ids@[j]),
        decreases ids.len() - i,
    {
        let var = ids[i];
        let bare_one = captured_by_anon(body, var) && !assigns_null_to(body, var);
        decls.push(
            Stmt::LocalDef {
                var,
                init: if bare_one {
                    None
                } else {
                    default_init_for(vt, var)
                },
                is_final: false,
                force_type: true,
            },
        );
        i += 1;
    }
    assert(stmts(decls@) =~= in_order(missing_vars(body@, vt@)).map_values(
        |v: u32| missing_decl(body@, vt@, v),
    ));
    prepend_decls(body, decls);
}

} // verus!
