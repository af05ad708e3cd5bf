//! `try`-with-resources as the first compilers write it: a guarded `close` after the body.
use crate::assigns::{stmt_assigns, stmt_assigns_var, stmt_uses_local, stmt_uses_var};
use crate::cleanup::{drop_empty, nonempty};
use crate::ctor_guards::{as_list, into_vec};
use crate::expr::{
    as_local, exprs, local_var, opt_box, BinOp, ConstVal, ConstValV, Expr, ExprV, UnOp,
};
use crate::monitors::{flatten_stmts, leaves};
use crate::stmt::{
    case_groups, catch_list, clone_catch, empty_block, is_empty_block, no_stmt, opt_stmt, stmts,
    take_stmt, CaseGroup, CaseGroupV, Catch, CatchV, Stmt, StmtV,
};
use crate::types::{str_eq, strs};
use vstd::prelude::*;

verus! {

// ---------------------------------------------------------------------
// Weights.


/// Number of statements in `s`, lists and clauses counted too.
pub open spec fn stmt_weight(s: StmtV) -> nat
    decreases s,
{
    match s {
        StmtV::Block(items) => 1 + stmts_weight(items),
        StmtV::If { then_stmt, else_stmt, .. } => 1 + stmt_weight(*then_stmt) + opt_stmt_weight(
            else_stmt,
        ),
        StmtV::While { body, .. } => 1 + stmt_weight(*body),
        StmtV::DoWhile { body, .. } => 1 + stmt_weight(*body),
        StmtV::For { init, body, .. } => 1 + stmts_weight(init) + stmt_weight(*body),
        StmtV::ForEach { body, .. } => 1 + stmt_weight(*body),
        StmtV::Switch { cases, default, .. } => 1 + cases_weight(cases) + opt_stmt_weight(default),
        StmtV::Try { body, catches, finally } => 4 + stmt_weight(*body) + catches_weight(catches)
            + opt_stmt_weight(finally),
        StmtV::TryWithResources { resources, body, catches, finally } => 1 + stmts_weight(resources)
            + stmt_weight(*body) + catches_weight(catches) + opt_stmt_weight(finally),
        StmtV::Synchronized { body, .. } => 1 + stmt_weight(*body),
        StmtV::Labeled { body, .. } => 1 + stmt_weight(*body),
        _ => 1,
    }
}

/// The weight of an optional statement.
pub open spec fn opt_stmt_weight(o: Option<Box<StmtV>>) -> nat
    decreases o,
{
    match o {
        Some(s) => 1 + stmt_weight(*s),
        None => 1,
    }
}

/// The weight of a statement list.
pub open spec fn stmts_weight(v: Seq<StmtV>) -> nat
    decreases v,
{
    if v.len() == 0 {
        0
    } else {
        1 + stmts_weight(v.drop_last()) + stmt_weight(v.last())
    }
}

/// The weight of a switch arm.
pub open spec fn case_weight(c: CaseGroupV) -> nat
    decreases c,
{
    1 + stmts_weight(c.body)
}

/// The weight of a list of switch arms.
pub open spec fn cases_weight(v: Seq<CaseGroupV>) -> nat
    decreases v,
{
    if v.len() == 0 {
        0
    } else {
        1 + cases_weight(v.drop_last()) + case_weight(v.last())
    }
}

/// The weight of a catch clause.
pub open spec fn catch_weight(c: CatchV) -> nat
    decreases c,
{
    2 + stmt_weight(*c.body)
}

/// The weight of a list of catch clauses.
pub open spec fn catches_weight(v: Seq<CatchV>) -> nat
    decreases v,
{
    if v.len() == 0 {
        0
    } else {
        1 + catches_weight(v.drop_last()) + catch_weight(v.last())
    }
}

/// A statement of a list is lighter than the list.
proof fn lemma_stmts_weight(v: Seq<StmtV>, i: int)
    requires
        0 <= i < v.len(),
    ensures
        stmt_weight(v[i]) < stmts_weight(v),
    decreases v.len(),
{
    if i < v.len() - 1 {
        lemma_stmts_weight(v.drop_last(), i);
        assert(v.drop_last()[i] == v[i]);
    }
}

/// An arm of a list is lighter than the list.
proof fn lemma_cases_weight(v: Seq<CaseGroupV>, i: int)
    requires
        0 <= i < v.len(),
    ensures
        case_weight(v[i]) < cases_weight(v),
    decreases v.len(),
{
    if i < v.len() - 1 {
        lemma_cases_weight(v.drop_last(), i);
        assert(v.drop_last()[i] == v[i]);
    }
}

/// A clause of a list is lighter than the list.
proof fn lemma_catches_weight(v: Seq<CatchV>, i: int)
    requires
        0 <= i < v.len(),
    ensures
        catch_weight(v[i]) < catches_weight(v),
    decreases v.len(),
{
    if i < v.len() - 1 {
        lemma_catches_weight(v.drop_last(), i);
        assert(v.drop_last()[i] == v[i]);
    }
}

/// The weight of a list with its first statement changed.
proof fn lemma_stmts_weight_first(v: Seq<StmtV>)
    requires
        v.len() > 0,
    ensures
        stmts_weight(v) == 1 + stmt_weight(v[0]) + stmts_weight(v.skip(1)),
    decreases v.len(),
{
    if v.len() == 1 {
        assert(v.drop_last() =~= seq![]);
        assert(v.skip(1) =~= seq![]);
    } else {
        lemma_stmts_weight_first(v.drop_last());
        assert(v.drop_last().skip(1) =~= v.skip(1).drop_last());
    }
}


/// The weight of a list with one statement changed.
proof fn lemma_weight_update(v: Seq<StmtV>, i: int, x: StmtV)
    requires
        0 <= i < v.len(),
    ensures
        stmts_weight(v.update(i, x)) + stmt_weight(v[i]) == stmts_weight(v) + stmt_weight(x),
    decreases v.len(),
{
    if i == v.len() - 1 {
        assert(v.update(i, x).drop_last() =~= v.drop_last());
    } else {
        lemma_weight_update(v.drop_last(), i, x);
        assert(v.update(i, x).drop_last() =~= v.drop_last().update(i, x));
        assert(v.update(i, x).last() == v.last());
    }
}

/// The weights of two lists add up.
proof fn lemma_weight_concat(a: Seq<StmtV>, b: Seq<StmtV>)
    ensures
        stmts_weight(a + b) == stmts_weight(a) + stmts_weight(b),
    decreases b.len(),
{
    if b.len() == 0 {
        assert(a + b =~= a);
    } else {
        lemma_weight_concat(a, b.drop_last());
        assert((a + b).drop_last() =~= a + b.drop_last());
        assert((a + b).last() == b.last());
    }
}

/// Dropping empty blocks makes a list lighter.
proof fn lemma_weight_nonempty(v: Seq<StmtV>)
    ensures
        stmts_weight(nonempty(v)) <= stmts_weight(v),
        (exists|i: int| 0 <= i < v.len() && is_empty_block(#[trigger] v[i])) ==> stmts_weight(
            nonempty(v),
        ) + 2 <= stmts_weight(v),
    decreases v.len(),
{
    if v.len() > 0 {
        let front = v.drop_last();
        lemma_weight_nonempty(front);
        if is_empty_block(v.last()) {
            assert(nonempty(v) =~= nonempty(front));
            assert(stmt_weight(v.last()) >= 1);
        } else {
            assert(nonempty(v) =~= nonempty(front).push(v.last()));
            assert(nonempty(v).drop_last() =~= nonempty(front));
            if exists|i: int| 0 <= i < v.len() && is_empty_block(#[trigger] v[i]) {
                let i = choose|i: int| 0 <= i < v.len() && is_empty_block(#[trigger] v[i]);
                assert(front[i] == v[i]);
            }
        }
    }
}

// ---------------------------------------------------------------------
// What is closed.

/// The local on which an expression calls `close()`.
pub open spec fn closed_local(e: ExprV) -> Option<u32>
    decreases e,
{
    match e {
        ExprV::Method { owner, name, args, .. } => if name == "close"@ && args.len() == 0 {
            match owner {
                Some(o) => as_local(*o),
                None => None,
            }
        } else {
            match owner {
                Some(o) => match closed_local(*o) {
                    Some(v) => Some(v),
                    None => closed_local_any(args),
                },
                None => None,
            }
        },
        _ => None,
    }
}

/// The first of [`closed_local`] in a list.
pub open spec fn closed_local_any(l: Seq<ExprV>) -> Option<u32>
    decreases l,
{
    if l.len() == 0 {
        None
    } else {
        match closed_local_any(l.drop_last()) {
            Some(v) => Some(v),
            None => closed_local(l.last()),
        }
    }
}

/// The local on which an expression calls `close()`.
fn expr_target(e: &Expr) -> (r: Option<u32>)
    ensures
        r == closed_local(e@),
    decreases e,
{
    match e {
        Expr::Method { owner, name, args, .. } => {
            assert(exprs(args@).len() == args@.len());
            assert(opt_box(*owner) == (match owner {
                Some(o) => Some(Box::new(o@)),
                None => None,
            }));
            if str_eq(name.as_str(), "close") && args.len() == 0 {
                return match owner {
                    Some(o) => local_var(o),
                    None => None,
                };
            }
            match owner {
                Some(o) => match expr_target(o) {
                    Some(v) => Some(v),
                    None => expr_target_any(args),
                },
                None => None,
            }
        },
        _ => None,
    }
}

/// A local found in the first `n` is the first of all.
proof fn lemma_closed_prefix(l: Seq<ExprV>, n: int)
    requires
        0 <= n <= l.len(),
        closed_local_any(l.take(n)) is Some,
    ensures
        closed_local_any(l) == closed_local_any(l.take(n)),
    decreases l.len() - n,
{
    if n < l.len() {
        assert(l.take(n + 1).drop_last() =~= l.take(n));
        lemma_closed_prefix(l, n + 1);
    } else {
        assert(l.take(n) =~= l);
    }
}

/// The first local in a list on which `close()` is called.
#[verifier::loop_isolation(false)]
fn expr_target_any(l: &Vec<Expr>) -> (r: Option<u32>)
    ensures
        r == closed_local_any(exprs(l@)),
    decreases l,
{
    let ghost all = exprs(l@);
    let mut i: usize = 0;
    assert(all.take(0) =~= seq![]);
    while i < l.len()
        invariant
            i <= l.len(),
            closed_local_any(all.take(i as int)) is None,
        decreases l.len() - i,
    {
        assert(decreases_to!(l => l@[i as int]));
        assert(all.take(i + 1).drop_last() =~= all.take(i as int));
        assert(all.take(i + 1).last() == l@[i as int]@);
        if let Some(v) = expr_target(&l[i]) {
            proof {
                lemma_closed_prefix(all, i + 1);
            }
            return Some(v);
        }
        i += 1;
    }
    assert(all.take(i as int) =~= all);
    None
}

/// The first local on which `s` calls `close()`.
pub open spec fn closed_in(s: StmtV) -> Option<u32>
    decreases s,
{
    match s {
        StmtV::Block(v) => closed_in_seq(v),
        StmtV::ExprStmt(e) => closed_local(e),
        StmtV::If { then_stmt, else_stmt, .. } => first_of(
            closed_in(*then_stmt),
            closed_in_opt(else_stmt),
        ),
        StmtV::Try { body, catches, finally } => first_of(
            closed_in(*body),
            first_of(closed_in_catches(catches), closed_in_opt(finally)),
        ),
        StmtV::TryWithResources { body, catches, finally, .. } => first_of(
            closed_in(*body),
            first_of(closed_in_catches(catches), closed_in_opt(finally)),
        ),
        _ => None,
    }
}

/// The first of two that is there.
pub open spec fn first_of(a: Option<u32>, b: Option<u32>) -> Option<u32> {
    match a {
        Some(v) => Some(v),
        None => b,
    }
}

/// [`closed_in`] where there is a statement.
pub open spec fn closed_in_opt(o: Option<Box<StmtV>>) -> Option<u32>
    decreases o,
{
    match o {
        Some(x) => closed_in(*x),
        None => None,
    }
}

/// The first of [`closed_in`] in a list.
pub open spec fn closed_in_seq(l: Seq<StmtV>) -> Option<u32>
    decreases l,
{
    if l.len() == 0 {
        None
    } else {
        first_of(closed_in_seq(l.drop_last()), closed_in(l.last()))
    }
}

/// The first of [`closed_in`] in the bodies of catch clauses.
pub open spec fn closed_in_catches(l: Seq<CatchV>) -> Option<u32>
    decreases l,
{
    if l.len() == 0 {
        None
    } else {
        first_of(closed_in_catches(l.drop_last()), closed_in_catch(l.last()))
    }
}

/// [`closed_in`] the body of a catch clause.
pub open spec fn closed_in_catch(c: CatchV) -> Option<u32>
    decreases c,
{
    closed_in(*c.body)
}

/// The first local on which `s` calls `close()`.
fn close_target(s: &Stmt) -> (r: Option<u32>)
    ensures
        r == closed_in(s@),
    decreases s,
{
    match s {
        Stmt::Block(v) => close_target_vec(v),
        Stmt::ExprStmt(e) => expr_target(e),
        Stmt::If { then_stmt, else_stmt, .. } => match close_target(then_stmt) {
            Some(v) => Some(v),
            None => close_target_opt(else_stmt),
        },
        Stmt::Try { body, catches, finally } => match close_target(body) {
            Some(v) => Some(v),
            None => match close_target_catches(catches) {
                Some(v) => Some(v),
                None => close_target_opt(finally),
            },
        },
        Stmt::TryWithResources { body, catches, finally, .. } => match close_target(body) {
            Some(v) => Some(v),
            None => match close_target_catches(catches) {
                Some(v) => Some(v),
                None => close_target_opt(finally),
            },
        },
        _ => None,
    }
}

/// `close_target` where there is a statement.
fn close_target_opt(o: &Option<Box<Stmt>>) -> (r: Option<u32>)
    ensures
        r == closed_in_opt(opt_stmt(*o)),
    decreases o,
{
    match o {
        Some(x) => close_target(x),
        None => None,
    }
}

/// A local found in the first `n` is the first of all.
proof fn lemma_closed_seq(l: Seq<StmtV>, n: int)
    requires
        0 <= n <= l.len(),
        closed_in_seq(l.take(n)) is Some,
    ensures
        closed_in_seq(l) == closed_in_seq(l.take(n)),
    decreases l.len() - n,
{
    if n < l.len() {
        assert(l.take(n + 1).drop_last() =~= l.take(n));
        lemma_closed_seq(l, n + 1);
    } else {
        assert(l.take(n) =~= l);
    }
}

/// The first of `close_target` in a list.
#[verifier::loop_isolation(false)]
fn close_target_vec(l: &Vec<Stmt>) -> (r: Option<u32>)
    ensures
        r == closed_in_seq(stmts(l@)),
    decreases l,
{
    let ghost all = stmts(l@);
    let mut i: usize = 0;
    assert(all.take(0) =~= seq![]);
    while i < l.len()
        invariant
            i <= l.len(),
            closed_in_seq(all.take(i as int)) is None,
        decreases l.len() - i,
    {
        assert(decreases_to!(l => l@[i as int]));
        assert(all.take(i + 1).drop_last() =~= all.take(i as int));
        assert(all.take(i + 1).last() == l@[i as int]@);
        if let Some(v) = close_target(&l[i]) {
            proof {
                lemma_closed_seq(all, i + 1);
            }
            return Some(v);
        }
        i += 1;
    }
    assert(all.take(i as int) =~= all);
    None
}

/// A local found in the first `n` is the first of all.
proof fn lemma_closed_catches(l: Seq<CatchV>, n: int)
    requires
        0 <= n <= l.len(),
        closed_in_catches(l.take(n)) is Some,
    ensures
        closed_in_catches(l) == closed_in_catches(l.take(n)),
    decreases l.len() - n,
{
    if n < l.len() {
        assert(l.take(n + 1).drop_last() =~= l.take(n));
        lemma_closed_catches(l, n + 1);
    } else {
        assert(l.take(n) =~= l);
    }
}

/// The first of `close_target` in a list.
#[verifier::loop_isolation(false)]
fn close_target_catches(l: &Vec<Catch>) -> (r: Option<u32>)
    ensures
        r == closed_in_catches(catch_list(l@)),
    decreases l,
{
    let ghost all = catch_list(l@);
    let mut i: usize = 0;
    assert(all.take(0) =~= seq![]);
    while i < l.len()
        invariant
            i <= l.len(),
            closed_in_catches(all.take(i as int)) is None,
        decreases l.len() - i,
    {
        assert(decreases_to!(l => l@[i as int]));
        assert(all.take(i + 1).drop_last() =~= all.take(i as int));
        assert(all.take(i + 1).last() == l@[i as int]@);
        if let Some(v) = close_target_catch(&l[i]) {
            proof {
                lemma_closed_catches(all, i + 1);
            }
            return Some(v);
        }
        i += 1;
    }
    assert(all.take(i as int) =~= all);
    None
}

/// `close_target` of the body of a catch clause.
fn close_target_catch(c: &Catch) -> (r: Option<u32>)
    ensures
        r == closed_in_catch(c@),
    decreases c,
{
    close_target(&c.body)
}

// ---------------------------------------------------------------------
// Close scaffolding.

/// A statement that a handler of the scaffolding may hold.
pub open spec fn is_handler_stmt(s: StmtV) -> bool {
    match s {
        StmtV::ExprStmt(e) => match e {
            ExprV::Method { name, .. } => name == "addSuppressed"@ || name == "close"@,
            ExprV::Assign { .. } => true,
            _ => false,
        },
        StmtV::Throw(_) => true,
        StmtV::Return(_) => true,
        StmtV::LocalDef { .. } => true,
        StmtV::Goto(_) => true,
        StmtV::Break(_) => true,
        StmtV::Continue(_) => true,
        _ => false,
    }
}

/// A handler of the scaffolding.
pub open spec fn is_scaffold_handler(c: CatchV) -> bool {
    forall|i: int|
        0 <= i < leaves(*c.body).len() ==> is_handler_stmt(#[trigger] leaves(*c.body)[i])
}

/// All are handlers of the scaffolding.
pub open spec fn are_scaffold_handlers(l: Seq<CatchV>) -> bool {
    forall|i: int| 0 <= i < l.len() ==> is_scaffold_handler(#[trigger] l[i])
}

/// A test against `null`, or a negation.
pub open spec fn is_guard(e: ExprV) -> bool {
    match e {
        ExprV::Bin { op, r, .. } => (op is Eq || op is Ne || op is RefEq || op is RefNe) && *r
            == ExprV::Const(ConstValV::Null),
        ExprV::Un { op, .. } => op is Not,
        _ => false,
    }
}

/// An expression that the scaffolding evaluates: a call of `close`, or an assignment to a
/// local.
pub open spec fn is_scaffold_expr(e: ExprV) -> bool {
    match e {
        ExprV::Method { name, .. } => name == "close"@,
        ExprV::Assign { target, .. } => *target is Local,
        _ => false,
    }
}

/// `s` is scaffolding around a `close`. A `return` counts only where it is nested.
pub open spec fn is_scaffold(s: StmtV, nested: bool) -> bool
    decreases s,
{
    match s {
        StmtV::Block(v) => are_scaffold(v),
        StmtV::LocalDef { .. } => true,
        StmtV::ExprStmt(e) => is_scaffold_expr(e),
        StmtV::If { cond, .. } => is_guard(cond),
        StmtV::Try { body, catches, finally } => is_scaffold(*body, true)
            && is_scaffold_opt(finally)
            && are_scaffold_handlers(catches),
        StmtV::TryWithResources { body, catches, finally, .. } => is_scaffold(*body, true)
            && is_scaffold_opt(finally) && are_scaffold_handlers(catches),
        StmtV::Throw(_) => true,
        StmtV::Goto(_) => true,
        StmtV::Break(_) => true,
        StmtV::Continue(_) => true,
        StmtV::Return(_) => nested,
        _ => false,
    }
}

/// All nested statements are scaffolding.
pub open spec fn are_scaffold(l: Seq<StmtV>) -> bool
    decreases l,
{
    forall|i: int| 0 <= i < l.len() ==> is_scaffold(#[trigger] l[i], true)
}

/// There is no nested statement, or it is scaffolding.
pub open spec fn is_scaffold_opt(o: Option<Box<StmtV>>) -> bool
    decreases o,
{
    match o {
        Some(x) => is_scaffold(*x, true),
        None => true,
    }
}

/// Whether a handler of the scaffolding may hold `s`.
fn handler_stmt(s: &Stmt) -> (r: bool)
    ensures
        r == is_handler_stmt(s@),
{
    match s {
        Stmt::ExprStmt(e) => match e {
            Expr::Method { name, .. } => str_eq(name.as_str(), "addSuppressed") || str_eq(
                name.as_str(),
                "close",
            ),
            Expr::Assign { .. } => true,
            _ => false,
        },
        Stmt::Throw(_) => true,
        Stmt::Return(_) => true,
        Stmt::LocalDef { .. } => true,
        Stmt::Goto(_) => true,
        Stmt::Break(_) => true,
        Stmt::Continue(_) => true,
        _ => false,
    }
}

/// Whether all are handlers of the scaffolding.
#[verifier::loop_isolation(false)]
fn scaffold_handlers(l: &Vec<Catch>) -> (r: bool)
    ensures
        r == are_scaffold_handlers(catch_list(l@)),
{
    let ghost all = catch_list(l@);
    let mut i: usize = 0;
    while i < l.len()
        invariant
            i <= l.len(),
            forall|j: int| 0 <= j < i ==> is_scaffold_handler(#[trigger] all[j]),
        decreases l.len() - i,
    {
        assert(all[i as int] == l@[i as int]@);
        if !scaffold_handler(&l[i]) {
            return false;
        }
        i += 1;
    }
    true
}

/// Whether a clause is a handler of the scaffolding.
#[verifier::loop_isolation(false)]
fn scaffold_handler(c: &Catch) -> (r: bool)
    ensures
        r == is_scaffold_handler(c@),
{
    let hs = flatten_stmts(&c.body);
    let ghost all = leaves(*c@.body);
    assert(all.len() == hs@.len());
    let mut i: usize = 0;
    while i < hs.len()
        invariant
            i <= hs.len(),
            forall|j: int| 0 <= j < i ==> is_handler_stmt(#[trigger] all[j]),
        decreases hs.len() - i,
    {
        assert(stmts(hs@)[i as int] == hs@[i as int]@);
        if !handler_stmt(&hs[i]) {
            return false;
        }
        i += 1;
    }
    true
}

/// Whether `e` is a test against `null`, or a negation.
fn guards(e: &Expr) -> (r: bool)
    ensures
        r == is_guard(e@),
{
    proof {
        reveal_with_fuel(Expr::view, 2);
    }
    match e {
        Expr::Bin { op, r, .. } => match op {
            BinOp::Eq | BinOp::Ne | BinOp::RefEq | BinOp::RefNe => matches!(
                **r,
                Expr::Const(ConstVal::Null)
            ),
            _ => false,
        },
        Expr::Un { op, .. } => matches!(op, UnOp::Not),
        _ => false,
    }
}

/// Whether the scaffolding evaluates `e`.
fn scaffold_expr(e: &Expr) -> (r: bool)
    ensures
        r == is_scaffold_expr(e@),
{
    proof {
        reveal_with_fuel(Expr::view, 2);
    }
    match e {
        Expr::Method { name, .. } => str_eq(name.as_str(), "close"),
        Expr::Assign { target, .. } => matches!(**target, Expr::Local { .. }),
        _ => false,
    }
}

/// Whether `s` is scaffolding around a `close`.
fn scaffold_check(s: &Stmt, nested: bool) -> (r: bool)
    ensures
        r == is_scaffold(s@, nested),
    decreases s,
{
    match s {
        Stmt::Block(v) => scaffold_check_vec(v),
        Stmt::LocalDef { .. } => true,
        Stmt::ExprStmt(e) => scaffold_expr(e),
        Stmt::If { cond, .. } => guards(cond),
        Stmt::Try { body, catches, finally } => scaffold_check(body, true) && scaffold_check_opt(
            finally,
        ) && scaffold_handlers(catches),
        Stmt::TryWithResources { body, catches, finally, .. } => scaffold_check(body, true)
            && scaffold_check_opt(finally) && scaffold_handlers(catches),
        Stmt::Throw(_) => true,
        Stmt::Goto(_) => true,
        Stmt::Break(_) => true,
        Stmt::Continue(_) => true,
        Stmt::Return(_) => nested,
        _ => false,
    }
}

/// Whether all nested statements are scaffolding.
#[verifier::loop_isolation(false)]
fn scaffold_check_vec(l: &Vec<Stmt>) -> (r: bool)
    ensures
        r == are_scaffold(stmts(l@)),
    decreases l,
{
    let ghost all = stmts(l@);
    let mut i: usize = 0;
    while i < l.len()
        invariant
            i <= l.len(),
            forall|j: int| 0 <= j < i ==> is_scaffold(#[trigger] all[j], true),
        decreases l.len() - i,
    {
        assert(decreases_to!(l => l@[i as int]));
        assert(all[i as int] == l@[i as int]@);
        if !scaffold_check(&l[i], true) {
            return false;
        }
        i += 1;
    }
    true
}

/// Whether there is no nested statement, or it is scaffolding.
fn scaffold_check_opt(o: &Option<Box<Stmt>>) -> (r: bool)
    ensures
        r == is_scaffold_opt(opt_stmt(*o)),
    decreases o,
{
    match o {
        Some(x) => scaffold_check(x, true),
        None => true,
    }
}

/// Whether `s` is scaffolding that is not nested.
fn is_close_scaffold_stmt(s: &Stmt) -> (r: bool)
    ensures
        r == is_scaffold(s@, false),
{
    scaffold_check(s, false)
}

// ---------------------------------------------------------------------
// Clauses.

/// What the clauses of a `try` say: the local for the primary exception, the clauses
/// that stay, and the scaffolding among those that go.
pub ghost struct ClausesV {
    pub primary: Option<u32>,
    pub keep: Seq<CatchV>,
    pub scaffold: Option<StmtV>,
}

/// A copy of caught variable `from` to `to`: the primary exception, and whether the
/// clause can still be a compiler's own.
pub open spec fn noted(primary: Option<u32>, synth: bool, to: u32, from: u32, var: u32) -> (
    Option<u32>,
    bool,
) {
    if from != var {
        (primary, false)
    } else {
        match primary {
            Some(p) => (primary, synth && p == to),
            None => (Some(to), synth),
        }
    }
}

/// One statement of a clause that catches `var`.
pub open spec fn clause_step(primary: Option<u32>, synth: bool, h: StmtV, var: u32) -> (
    Option<u32>,
    bool,
) {
    match h {
        StmtV::ExprStmt(e) => match e {
            ExprV::Assign { target, value, .. } => match (as_local(*target), as_local(*value)) {
                (Some(to), Some(from)) => noted(primary, synth, to, from, var),
                _ => (primary, false),
            },
            _ => (primary, false),
        },
        StmtV::LocalDef { var: to, init, .. } => match init {
            Some(e) => match as_local(e) {
                Some(from) => noted(primary, synth, to, from, var),
                None => (primary, false),
            },
            None => (primary, false),
        },
        StmtV::Throw(e) => (primary, synth && as_local(e) == Some(var)),
        _ => (primary, false),
    }
}

/// The statements of a clause that catches `var`, in order.
pub open spec fn clause_run(primary: Option<u32>, synth: bool, v: Seq<StmtV>, var: u32) -> (
    Option<u32>,
    bool,
)
    decreases v.len(),
{
    if v.len() == 0 {
        (primary, synth)
    } else {
        let (p, s) = clause_run(primary, synth, v.drop_last(), var);
        clause_step(p, s, v.last(), var)
    }
}

/// Some statement throws.
pub open spec fn some_throw(v: Seq<StmtV>) -> bool {
    exists|i: int| 0 <= i < v.len() && (#[trigger] v[i]) is Throw
}

/// A clause that can hold the scaffolding: it catches everything.
pub open spec fn catches_all(c: CatchV) -> bool {
    c.exc.len() == 0 || (c.exc.len() == 1 && c.exc[0] == "java/lang/Throwable"@)
}

/// The clauses, in order. A clause that notes the primary exception and rethrows goes;
/// so does the first one that holds the scaffolding where there is no `finally`.
pub open spec fn clauses(catches: Seq<CatchV>, has_finally: bool) -> ClausesV
    decreases catches.len(),
{
    if catches.len() == 0 {
        ClausesV { primary: None, keep: seq![], scaffold: None }
    } else {
        let st = clauses(catches.drop_last(), has_finally);
        let c = catches.last();
        let hs = leaves(*c.body);
        let (primary, synth) = clause_run(st.primary, some_throw(hs), hs, c.var);
        if synth {
            ClausesV { primary, ..st }
        } else if catches_all(c) && !has_finally && st.scaffold is None && is_scaffold(
            *c.body,
            false,
        ) {
            ClausesV { primary, scaffold: Some(*c.body), ..st }
        } else {
            ClausesV { primary, keep: st.keep.push(c), ..st }
        }
    }
}

/// The clauses that stay are no heavier.
proof fn lemma_clauses_weight(catches: Seq<CatchV>, has_finally: bool)
    ensures
        catches_weight(clauses(catches, has_finally).keep) <= catches_weight(catches),
    decreases catches.len(),
{
    if catches.len() > 0 {
        lemma_clauses_weight(catches.drop_last(), has_finally);
        let front = clauses(catches.drop_last(), has_finally).keep;
        let all = clauses(catches, has_finally).keep;
        if all.len() > front.len() {
            assert(all.drop_last() =~= front);
        }
    }
}

/// What the clauses of a `try` say.
struct Clauses {
    primary: Option<u32>,
    keep: Vec<Catch>,
    /// Index of the clause that holds the scaffolding.
    scaffold: Option<usize>,
}

/// Notes a copy of the caught variable.
fn note(primary: Option<u32>, synth: bool, to: u32, from: u32, var: u32) -> (r: (Option<u32>, bool))
    ensures
        r == noted(primary, synth, to, from, var),
{
    if from != var {
        (primary, false)
    } else {
        match primary {
            Some(p) => (primary, synth && p == to),
            None => (Some(to), synth),
        }
    }
}

/// Follows one statement of a clause that catches `var`.
fn follow_clause(primary: Option<u32>, synth: bool, h: &Stmt, var: u32) -> (r: (Option<u32>, bool))
    ensures
        r == clause_step(primary, synth, h@, var),
{
    match h {
        Stmt::ExprStmt(e) => match e {
            Expr::Assign { target, value, .. } => match (local_var(target), local_var(value)) {
                (Some(to), Some(from)) => note(primary, synth, to, from, var),
                _ => (primary, false),
            },
            _ => (primary, false),
        },
        Stmt::LocalDef { var: to, init, .. } => match init {
            Some(e) => match local_var(e) {
                Some(from) => note(primary, synth, *to, from, var),
                None => (primary, false),
            },
            None => (primary, false),
        },
        Stmt::Throw(e) => {
            let own = match local_var(e) {
                Some(x) => x == var,
                None => false,
            };
            (primary, synth && own)
        },
        _ => (primary, false),
    }
}

/// Whether some statement throws.
#[verifier::loop_isolation(false)]
fn throws(v: &Vec<Stmt>) -> (r: bool)
    ensures
        r == some_throw(stmts(v@)),
{
    let ghost all = stmts(v@);
    let mut i: usize = 0;
    while i < v.len()
        invariant
            i <= v.len(),
            forall|j: int| 0 <= j < i ==> !((#[trigger] all[j]) is Throw),
        decreases v.len() - i,
    {
        assert(all[i as int] == v@[i as int]@);
        if matches!(v[i], Stmt::Throw(_)) {
            return true;
        }
        i += 1;
    }
    false
}

/// Follows the statements of a clause that catches `var`.
#[verifier::loop_isolation(false)]
fn run_clause(primary: Option<u32>, v: &Vec<Stmt>, var: u32) -> (r: (Option<u32>, bool))
    ensures
        r == clause_run(primary, some_throw(stmts(v@)), stmts(v@), var),
{
    let ghost all = stmts(v@);
    let start = throws(v);
    let mut p = primary;
    let mut s = start;
    let mut i: usize = 0;
    assert(all.take(0) =~= seq![]);
    while i < v.len()
        invariant
            i <= v.len(),
            (p, s) == clause_run(primary, start, all.take(i as int), var),
        decreases v.len() - i,
    {
        assert(all.take(i + 1).drop_last() =~= all.take(i as int));
        assert(all.take(i + 1).last() == v@[i as int]@);
        let (p1, s1) = follow_clause(p, s, &v[i], var);
        p = p1;
        s = s1;
        i += 1;
    }
    assert(all.take(i as int) =~= all);
    (p, s)
}

/// Whether a clause catches everything.
fn catches_everything(c: &Catch) -> (r: bool)
    ensures
        r == catches_all(c@),
{
    assert(strs(c.exc@).len() == c.exc@.len());
    if c.exc.len() == 0 {
        return true;
    }
    assert(strs(c.exc@)[0] == c.exc@[0]@);
    c.exc.len() == 1 && str_eq(c.exc[0].as_str(), "java/lang/Throwable")
}

/// What the clauses of a `try` say.
#[verifier::loop_isolation(false)]
#[verifier::spinoff_prover]
fn read_clauses(catches: &Vec<Catch>, has_finally: bool) -> (r: Clauses)
    ensures
        ({
            let c = clauses(catch_list(catches@), has_finally);
            &&& r.primary == c.primary
            &&& catch_list(r.keep@) == c.keep
            &&& match r.scaffold {
                Some(i) => i < catches.len() && c.scaffold == Some(catches@[i as int].body@),
                None => c.scaffold is None,
            }
        }),
{
    let ghost all = catch_list(catches@);
    let mut r = Clauses { primary: None, keep: Vec::new(), scaffold: None };
    let mut i: usize = 0;
    assert(all.take(0) =~= seq![]);
    assert(catch_list(r.keep@) =~= seq![]);
    while i < catches.len()
        invariant
            i <= catches.len(),
            r.primary == clauses(all.take(i as int), has_finally).primary,
            catch_list(r.keep@) == clauses(all.take(i as int), has_finally).keep,
            match r.scaffold {
                Some(k) => k < catches.len() && clauses(all.take(i as int), has_finally).scaffold
                    == Some(catches@[k as int].body@),
                None => clauses(all.take(i as int), has_finally).scaffold is None,
            },
        decreases catches.len() - i,
    {
        let c = &catches[i];
        assert(all.take(i + 1).drop_last() =~= all.take(i as int));
        assert(all.take(i + 1).last() == c@);
        let ghost front = catch_list(r.keep@);
        let hs = flatten_stmts(&c.body);
        let (primary, synth) = run_clause(r.primary, &hs, c.var);
        r.primary = primary;
        if !synth {
            if catches_everything(c) && !has_finally && r.scaffold.is_none()
                && is_close_scaffold_stmt(&c.body) {
                r.scaffold = Some(i);
            } else {
                r.keep.push(clone_catch(c));
                assert(catch_list(r.keep@) =~= front.push(c@));
            }
        }
        i += 1;
    }
    assert(all.take(i as int) =~= all);
    r
}

// ---------------------------------------------------------------------
// The plan.

/// A declaration of `var` with a value.
pub open spec fn defines(s: StmtV, var: u32) -> bool {
    s matches StmtV::LocalDef { var: v, init, .. } && (v == var && init is Some)
}

/// A declaration of the primary exception's local, without a value or with `null`.
pub open spec fn starts_primary(s: StmtV, primary: Option<u32>) -> bool {
    s matches StmtV::LocalDef { var: v, init, .. } && (primary == Some(v) && (init is None || init
        == Some(ExprV::Const(ConstValV::Null))))
}

/// The declaration of the resource `var` among the first `j` statements, searched from
/// the end over declarations and expressions only, and the declarations of the primary
/// exception's local passed on the way.
pub open spec fn resource_before(
    v: Seq<StmtV>,
    j: int,
    var: u32,
    primary: Option<u32>,
    inits: Seq<int>,
) -> Option<(int, Seq<int>)>
    decreases j,
{
    if j <= 0 {
        None
    } else {
        let s = v[j - 1];
        if defines(s, var) {
            Some((j - 1, inits))
        } else if starts_primary(s, primary) {
            resource_before(v, j - 1, var, primary, inits.push(j - 1))
        } else if s is LocalDef || s is ExprStmt {
            resource_before(v, j - 1, var, primary, inits)
        } else {
            None
        }
    }
}

/// How a `try` becomes one with a resource: where the resource and the primary
/// exception's local are declared, and the clauses that stay.
pub ghost struct PlanV {
    pub resource: int,
    pub inits: Seq<int>,
    pub keep: Seq<CatchV>,
}

/// No statement after `i` uses `var` but to close it.
pub open spec fn stays_inside(v: Seq<StmtV>, i: int, var: u32) -> bool {
    forall|j: int|
        i < j < v.len() ==> is_scaffold(#[trigger] v[j], false) || !stmt_uses_local(v[j], var)
}

/// No clause uses `var`.
pub open spec fn unused_in(keep: Seq<CatchV>, var: u32) -> bool {
    forall|j: int| 0 <= j < keep.len() ==> !stmt_uses_local(*(#[trigger] keep[j]).body, var)
}

/// The plan for the statement at `i`: a `try` whose `finally`, or whose scaffolding
/// clause, closes a local that is declared before it, is not assigned in its body and is
/// not used elsewhere.
pub open spec fn plan_at(v: Seq<StmtV>, i: int) -> Option<PlanV> {
    match v[i] {
        StmtV::Try { body, catches, finally } => {
            let c = clauses(catches, finally is Some);
            let source = match finally {
                Some(f) => Some(*f),
                None => c.scaffold,
            };
            match source {
                None => None,
                Some(src) => match closed_in(src) {
                    None => None,
                    Some(var) => match resource_before(v, i, var, c.primary, seq![]) {
                        None => None,
                        Some((ri, inits)) => if stmt_assigns(*body, var) || is_null_def(v[ri]) || (
                        c.primary matches Some(p) && stmt_uses_local(*body, p)) || !stays_inside(
                            v,
                            i,
                            var,
                        ) || !unused_in(c.keep, var) {
                            None
                        } else {
                            Some(PlanV { resource: ri, inits, keep: c.keep })
                        },
                    },
                },
            }
        },
        _ => None,
    }
}

/// A declaration with `null`.
pub open spec fn is_null_def(s: StmtV) -> bool {
    s matches StmtV::LocalDef { init, .. } && init == Some(ExprV::Const(ConstValV::Null))
}

/// How a `try` becomes one with a resource.
struct J7Plan {
    res_idx: usize,
    init_idxs: Vec<usize>,
    keep_catches: Vec<Catch>,
}

/// Model of indices.
pub open spec fn indices(v: Seq<usize>) -> Seq<int> {
    Seq::new(v.len(), |i: int| v[i] as int)
}

/// What the search finds lies before its start.
proof fn lemma_resource_before(
    v: Seq<StmtV>,
    j: int,
    var: u32,
    primary: Option<u32>,
    inits: Seq<int>,
)
    requires
        j <= v.len(),
        forall|k: int| 0 <= k < inits.len() ==> j <= #[trigger] inits[k] < v.len() && v[inits[k]]
            is LocalDef,
    ensures
        resource_before(v, j, var, primary, inits) matches Some((ri, all)) ==> {
            &&& 0 <= ri < j
            &&& v[ri] is LocalDef
            &&& forall|k: int|
                0 <= k < all.len() ==> ri < #[trigger] all[k] < v.len() && v[all[k]] is LocalDef
        },
    decreases j,
{
    if j > 0 {
        let s = v[j - 1];
        if starts_primary(s, primary) && !defines(s, var) {
            lemma_resource_before(v, j - 1, var, primary, inits.push(j - 1));
        } else if (s is LocalDef || s is ExprStmt) && !defines(s, var) {
            lemma_resource_before(v, j - 1, var, primary, inits);
        }
    }
}

/// Whether `s` declares `var` with a value.
fn defines_var(s: &Stmt, var: u32) -> (r: bool)
    ensures
        r == defines(s@, var),
{
    match s {
        Stmt::LocalDef { var: v, init, .. } => *v == var && init.is_some(),
        _ => false,
    }
}

/// Whether an expression is `null`.
fn is_null(e: &Expr) -> (r: bool)
    ensures
        r == (e@ == ExprV::Const(ConstValV::Null)),
{
    match e {
        Expr::Const(ConstVal::Null) => true,
        _ => false,
    }
}

/// Whether `s` declares the primary exception's local.
fn declares_primary(s: &Stmt, primary: Option<u32>) -> (r: bool)
    ensures
        r == starts_primary(s@, primary),
{
    match s {
        Stmt::LocalDef { var: v, init, .. } => {
            let own = match primary {
                Some(p) => p == *v,
                None => false,
            };
            own && match init {
                Some(e) => is_null(e),
                None => true,
            }
        },
        _ => false,
    }
}

/// The declaration of the resource, searched backwards from `i`.
#[verifier::loop_isolation(false)]
fn find_resource(v: &Vec<Stmt>, i: usize, var: u32, primary: Option<u32>) -> (r: Option<
    (usize, Vec<usize>),
>)
    requires
        i <= v.len(),
    ensures
        match r {
            Some((ri, inits)) => resource_before(stmts(v@), i as int, var, primary, seq![]) == Some(
                (ri as int, indices(inits@)),
            ),
            None => resource_before(stmts(v@), i as int, var, primary, seq![]) is None,
        },
{
    let ghost all = stmts(v@);
    let ghost goal = resource_before(all, i as int, var, primary, seq![]);
    let mut inits: Vec<usize> = Vec::new();
    let mut j: usize = i;
    assert(indices(inits@) =~= seq![]);
    while j > 0
        invariant
            j <= i,
            resource_before(all, j as int, var, primary, indices(inits@)) == goal,
        decreases j,
    {
        j -= 1;
        let ghost before = indices(inits@);
        assert(all[j as int] == v@[j as int]@);
        if defines_var(&v[j], var) {
            return Some((j, inits));
        }
        if declares_primary(&v[j], primary) {
            inits.push(j);
            assert(indices(inits@) =~= before.push(j as int));
            continue;
        }
        let plain = match &v[j] {
            Stmt::LocalDef { .. } => true,
            Stmt::ExprStmt(_) => true,
            _ => false,
        };
        if !plain {
            return None;
        }
    }
    None
}

/// Whether no statement after `i` uses `var` but to close it.
#[verifier::loop_isolation(false)]
fn kept_inside(v: &Vec<Stmt>, i: usize, var: u32) -> (r: bool)
    requires
        i < v.len(),
    ensures
        r == stays_inside(stmts(v@), i as int, var),
{
    let ghost all = stmts(v@);
    let mut j: usize = i + 1;
    while j < v.len()
        invariant
            i < j <= v.len(),
            forall|k: int|
                i < k < j
                    ==> is_scaffold(#[trigger] all[k], false) || !stmt_uses_local(all[k], var),
        decreases v.len() - j,
    {
        assert(all[j as int] == v@[j as int]@);
        if !is_close_scaffold_stmt(&v[j]) && stmt_uses_var(&v[j], var) {
            return false;
        }
        j += 1;
    }
    true
}

/// Whether no clause uses `var`.
#[verifier::loop_isolation(false)]
fn unused_by(keep: &Vec<Catch>, var: u32) -> (r: bool)
    ensures
        r == unused_in(catch_list(keep@), var),
{
    let ghost all = catch_list(keep@);
    let mut j: usize = 0;
    while j < keep.len()
        invariant
            j <= keep.len(),
            forall|k: int| 0 <= k < j ==> !stmt_uses_local(*(#[trigger] all[k]).body, var),
        decreases keep.len() - j,
    {
        assert(all[j as int] == keep@[j as int]@);
        if stmt_uses_var(&keep[j].body, var) {
            return false;
        }
        j += 1;
    }
    true
}

/// The plan for the statement at `i`.
#[verifier::spinoff_prover]
fn match_j7(v: &Vec<Stmt>, i: usize) -> (r: Option<J7Plan>)
    requires
        i < v.len(),
    ensures
        match r {
            Some(p) => plan_at(stmts(v@), i as int) == Some(
                PlanV {
                    resource: p.res_idx as int,
                    inits: indices(p.init_idxs@),
                    keep: catch_list(p.keep_catches@),
                },
            ),
            None => plan_at(stmts(v@), i as int) is None,
        },
{
    let ghost all = stmts(v@);
    assert(all[i as int] == v@[i as int]@);
    let (body, catches, finally) = match &v[i] {
        Stmt::Try { body, catches, finally } => (body, catches, finally),
        _ => {
            return None;
        },
    };
    assert(opt_stmt(*finally) == (match finally {
        Some(x) => Some(Box::new(x@)),
        None => None,
    }));
    let c = read_clauses(catches, finally.is_some());
    let target = match finally {
        Some(f) => close_target(f),
        None => match c.scaffold {
            Some(k) => close_target(&catches[k].body),
            None => None,
        },
    };
    let var = match target {
        Some(var) => var,
        None => {
            return None;
        },
    };
    let (ri, inits) = match find_resource(v, i, var, c.primary) {
        Some(x) => x,
        None => {
            return None;
        },
    };
    proof {
        lemma_resource_before(all, i as int, var, c.primary, seq![]);
    }
    if stmt_assigns_var(body, var) {
        return None;
    }
    assert(all[ri as int] == v@[ri as int]@);
    let null = match &v[ri] {
        Stmt::LocalDef { init: Some(e), .. } => is_null(e),
        _ => false,
    };
    if null {
        return None;
    }
    if let Some(p) = c.primary {
        if stmt_uses_var(body, p) {
            return None;
        }
    }
    if !kept_inside(v, i, var) || !unused_by(&c.keep, var) {
        return None;
    }
    Some(J7Plan { res_idx: ri, init_idxs: inits, keep_catches: c.keep })
}

// ---------------------------------------------------------------------
// Carrying it out.

/// A list with empty blocks at the given places.
pub open spec fn emptied(v: Seq<StmtV>, at: Seq<int>) -> Seq<StmtV>
    decreases at.len(),
{
    if at.len() == 0 {
        v
    } else {
        emptied(v, at.drop_last()).update(at.last(), empty_block())
    }
}

/// A `try` with a resource instead of a plain one.
pub open spec fn with_resource(s: StmtV, resource: StmtV, keep: Seq<CatchV>) -> StmtV {
    match s {
        StmtV::Try { body, .. } => StmtV::TryWithResources {
            resources: seq![resource],
            body,
            catches: keep,
            finally: None,
        },
        _ => s,
    }
}

/// A list with the plan for the statement at `i` carried out, empty blocks where
/// declarations were.
pub open spec fn replaced(v: Seq<StmtV>, i: int, p: PlanV) -> Seq<StmtV> {
    emptied(v.update(p.resource, empty_block()), p.inits).update(
        i,
        with_resource(v[i], v[p.resource], p.keep),
    )
}

/// How many of the statements before `i` are not empty blocks.
pub open spec fn kept_before(v: Seq<StmtV>, i: int) -> int {
    nonempty(v.take(i)).len() as int
}

/// A list without the scaffolding at its front.
pub open spec fn skip_scaffold(v: Seq<StmtV>) -> Seq<StmtV>
    decreases v.len(),
{
    if v.len() > 0 && is_scaffold(v[0], false) {
        skip_scaffold(v.skip(1))
    } else {
        v
    }
}

/// A statement that only ends in a `return` or `throw`.
pub open spec fn exits(s: StmtV) -> bool
    decreases s,
{
    match s {
        StmtV::Block(v) => v.len() > 0 && exits(v.last()),
        StmtV::Return(_) => true,
        StmtV::Throw(_) => true,
        _ => false,
    }
}

/// An arm whose every statement exits.
pub open spec fn arm_exits(c: CaseGroupV) -> bool {
    forall|i: int| 0 <= i < c.body.len() ==> exits(#[trigger] c.body[i])
}

/// All arms exit.
pub open spec fn arms_exit(l: Seq<CaseGroupV>) -> bool {
    forall|i: int| 0 <= i < l.len() ==> arm_exits(#[trigger] l[i])
}

/// A statement that ends in a switch all of whose arms exit.
pub open spec fn ends_in_switch(s: StmtV) -> bool
    decreases s,
{
    match s {
        StmtV::Block(v) => v.len() > 0 && ends_in_switch(v.last()),
        StmtV::Switch { cases, default, .. } => arms_exit(cases) && (match default {
            Some(d) => exits(*d),
            None => false,
        }),
        _ => false,
    }
}

/// A statement without control flow of its own.
pub open spec fn is_plain(s: StmtV) -> bool {
    s is ExprStmt || s is LocalDef || s is Return || s is Throw
}

/// How many statements from `j` on are plain.
pub open spec fn plain_run(v: Seq<StmtV>, j: int) -> nat
    decreases v.len() - j,
{
    if 0 <= j < v.len() && is_plain(v[j]) {
        1 + plain_run(v, j + 1)
    } else {
        0
    }
}

/// A `try` with `tail` at the end of its body.
pub open spec fn with_tail(s: StmtV, tail: Seq<StmtV>) -> StmtV {
    match s {
        StmtV::TryWithResources { resources, body, catches, finally } => StmtV::TryWithResources {
            resources,
            body: Box::new(StmtV::Block(as_list(*body) + tail)),
            catches,
            finally,
        },
        _ => s,
    }
}

/// The `try` ends in a switch all of whose arms exit.
pub open spec fn body_ends_in_switch(s: StmtV) -> bool {
    s matches StmtV::TryWithResources { body, .. } && ends_in_switch(*body)
}

/// A list whose `try` with resources at `t` takes in the plain statements after it, where
/// its body ends in a switch all of whose arms exit and they end in an exit themselves.
pub open spec fn taken_in(v: Seq<StmtV>, t: int) -> Seq<StmtV> {
    let n = plain_run(v, t + 1) as int;
    if body_ends_in_switch(v[t]) && n > 0 && (v[t + n] is Return || v[t + n] is Throw) {
        nonempty(
            v.take(t).push(with_tail(v[t], v.subrange(t + 1, t + 1 + n))) + v.skip(t + 1 + n),
        )
    } else {
        v
    }
}

/// A list with the plan for the statement at `i` carried out, and the place to go on from,
/// right after the `try` with a resource that the plan makes. The scaffolding after that
/// `try` goes.
pub open spec fn carried_out(v: Seq<StmtV>, i: int, p: PlanV) -> (Seq<StmtV>, int) {
    let a = replaced(v, i, p);
    let b = nonempty(a);
    let t = kept_before(a, i);
    (taken_in(b.take(t + 1) + skip_scaffold(b.skip(t + 1)), t), t + 1)
}

/// Emptying declarations keeps the weight.
proof fn lemma_emptied(v: Seq<StmtV>, at: Seq<int>)
    requires
        forall|k: int|
            0 <= k < at.len() ==> 0 <= #[trigger] at[k] < v.len() && stmt_weight(v[at[k]])
            == 1,
    ensures
        emptied(v, at).len() == v.len(),
        stmts_weight(emptied(v, at)) == stmts_weight(v),
        forall|j: int|
            0 <= j < v.len() ==> #[trigger] emptied(v, at)[j] == v[j] || emptied(v, at)[j]
                == empty_block(),
        forall|j: int|
            0 <= j < v.len() && !at.contains(j) ==> #[trigger] emptied(v, at)[j] == v[j],
    decreases at.len(),
{
    if at.len() > 0 {
        let front = at.drop_last();
        assert forall|k: int| 0 <= k < front.len() implies 0 <= #[trigger] front[k] < v.len()
            && stmt_weight(v[front[k]]) == 1 by {
            assert(front[k] == at[k]);
        }
        lemma_emptied(v, front);
        let e = emptied(v, front);
        let x = at[at.len() - 1];
        assert(stmt_weight(empty_block()) == 1) by {
            assert(stmts_weight(seq![]) == 0);
        }
        lemma_weight_update(e, x, empty_block());
        assert forall|j: int|
            0 <= j < v.len() && !at.contains(j) implies #[trigger] emptied(v, at)[j]
            == v[j] by {
            assert(!front.contains(j)) by {
                if front.contains(j) {
                    let k = choose|k: int| 0 <= k < front.len() && front[k] == j;
                    assert(at[k] == j);
                }
            }
            assert(at[at.len() - 1] == x);
        }
    }
}

/// Carrying out a plan makes a list lighter.
#[verifier::spinoff_prover]
proof fn lemma_carried_out(v: Seq<StmtV>, i: int)
    requires
        0 <= i < v.len(),
    ensures
        plan_at(v, i) matches Some(p) ==> {
            &&& stmts_weight(carried_out(v, i, p).0) < stmts_weight(v)
            &&& 0 <= p.resource < i
            &&& replaced(v, i, p).len() == v.len()
            &&& replaced(v, i, p)[i] is TryWithResources
            &&& forall|k: int|
                0 <= k < p.inits.len() ==> p.resource < #[trigger] p.inits[k] < v.len()
        },
{
    if let Some(p) = plan_at(v, i) {
        let (body, catches, finally) = match v[i] {
            StmtV::Try { body, catches, finally } => (body, catches, finally),
            _ => arbitrary(),
        };
        let c = clauses(catches, finally is Some);
        let source = match finally {
            Some(f) => Some(*f),
            None => c.scaffold,
        };
        let var = closed_in(source.unwrap()).unwrap();
        lemma_resource_before(v, i, var, c.primary, seq![]);
        lemma_clauses_weight(catches, finally is Some);
        let v1 = v.update(p.resource, empty_block());
        assert(stmt_weight(empty_block()) == 1) by {
            assert(stmts_weight(seq![]) == 0);
        }
        lemma_weight_update(v, p.resource, empty_block());
        assert forall|k: int| 0 <= k < p.inits.len() implies 0 <= #[trigger] p.inits[k] < v1.len()
            && stmt_weight(v1[p.inits[k]]) == 1 by {
            assert(v[p.inits[k]] is LocalDef);
        }
        lemma_emptied(v1, p.inits);
        let v2 = emptied(v1, p.inits);
        lemma_inits_before(v, i, var, c.primary);
        assert(!p.inits.contains(i));
        assert(v2[i] == v1[i]);
        let twr = with_resource(v[i], v[p.resource], p.keep);
        lemma_weight_update(v2, i, twr);
        assert(stmts_weight(seq![v[p.resource]]) == 2) by {
            lemma_stmts_weight_first(seq![v[p.resource]]);
            assert(seq![v[p.resource]].skip(1) =~= seq![]);
        }
        let none: Option<Box<StmtV>> = None;
        assert(opt_stmt_weight(none) == 1);
        assert(opt_stmt_weight(finally) >= 1);
        assert(stmt_weight(twr) < stmt_weight(v[i]));
        let a = replaced(v, i, p);
        assert(is_empty_block(a[p.resource])) by {
            assert(v2[p.resource] == v1[p.resource] || v2[p.resource] == empty_block());
        }
        lemma_weight_nonempty(a);
        let b = nonempty(a);
        assert(a[i] == twr);
        lemma_kept(a, i);
        let t = kept_before(a, i);
        let rest = skip_scaffold(b.skip(t + 1));
        lemma_skip_scaffold(b.skip(t + 1));
        lemma_weight_concat(b.take(t + 1), b.skip(t + 1));
        assert(b.take(t + 1) + b.skip(t + 1) =~= b);
        lemma_weight_concat(b.take(t + 1), rest);
        lemma_taken_in(b.take(t + 1) + rest, t);
    }
}

/// The declarations passed on the way stand before the `try`.
proof fn lemma_inits_before(v: Seq<StmtV>, i: int, var: u32, primary: Option<u32>)
    requires
        0 <= i <= v.len(),
    ensures
        resource_before(v, i, var, primary, seq![]) matches Some((_, all)) ==> forall|k: int|
            0 <= k < all.len() ==> #[trigger] all[k] < i,
{
    lemma_inits_below(v, i, var, primary, seq![], i);
}

/// The declarations passed on the way stand before `n`.
proof fn lemma_inits_below(
    v: Seq<StmtV>,
    j: int,
    var: u32,
    primary: Option<u32>,
    inits: Seq<int>,
    n: int,
)
    requires
        j <= n,
        forall|k: int| 0 <= k < inits.len() ==> #[trigger] inits[k] < n,
    ensures
        resource_before(v, j, var, primary, inits) matches Some((_, all)) ==> forall|k: int|
            0 <= k < all.len() ==> #[trigger] all[k] < n,
    decreases j,
{
    if j > 0 {
        let s = v[j - 1];
        if !defines(s, var) {
            if starts_primary(s, primary) {
                lemma_inits_below(v, j - 1, var, primary, inits.push(j - 1), n);
            } else if s is LocalDef || s is ExprStmt {
                lemma_inits_below(v, j - 1, var, primary, inits, n);
            }
        }
    }
}

/// A statement that is no empty block is kept behind those kept before it.
proof fn lemma_kept(v: Seq<StmtV>, i: int)
    requires
        0 <= i < v.len(),
        !is_empty_block(v[i]),
    ensures
        kept_before(v, i) < nonempty(v).len(),
        nonempty(v)[kept_before(v, i)] == v[i],
    decreases v.len(),
{
    let front = v.drop_last();
    if i == v.len() - 1 {
        assert(v.take(i) =~= front);
    } else {
        assert(front.take(i) =~= v.take(i));
        lemma_kept(front, i);
    }
}

/// Skipping scaffolding makes a list no heavier.
proof fn lemma_skip_scaffold(v: Seq<StmtV>)
    ensures
        stmts_weight(skip_scaffold(v)) <= stmts_weight(v),
        skip_scaffold(v).len() <= v.len(),
    decreases v.len(),
{
    if v.len() > 0 && is_scaffold(v[0], false) {
        lemma_skip_scaffold(v.skip(1));
        lemma_stmts_weight_first(v);
    }
}

/// A run of plain statements lies in the list.
proof fn lemma_plain_run(v: Seq<StmtV>, j: int)
    requires
        0 <= j <= v.len(),
    ensures
        j + plain_run(v, j) <= v.len(),
    decreases v.len() - j,
{
    if j < v.len() && is_plain(v[j]) {
        lemma_plain_run(v, j + 1);
    }
}

/// Taking statements in adds at most two to the weight.
proof fn lemma_taken_in(v: Seq<StmtV>, t: int)
    requires
        0 <= t < v.len(),
    ensures
        stmts_weight(taken_in(v, t)) <= stmts_weight(v) + 2,
{
    let n = plain_run(v, t + 1) as int;
    lemma_plain_run(v, t + 1);
    if body_ends_in_switch(v[t]) && n > 0 && (v[t + n] is Return || v[t + n] is Throw) {
        let run = v.subrange(t + 1, t + 1 + n);
        let whole = with_tail(v[t], run);
        let w = v.take(t).push(whole) + v.skip(t + 1 + n);
        lemma_weight_nonempty(w);
        lemma_weight_concat(v.take(t).push(whole), v.skip(t + 1 + n));
        assert(v.take(t).push(whole).drop_last() =~= v.take(t));
        assert(v =~= v.take(t).push(v[t]) + run + v.skip(t + 1 + n));
        lemma_weight_concat(v.take(t).push(v[t]) + run, v.skip(t + 1 + n));
        lemma_weight_concat(v.take(t).push(v[t]), run);
        assert(v.take(t).push(v[t]).drop_last() =~= v.take(t));
        if let StmtV::TryWithResources { resources, body, catches, finally } = v[t] {
            let list = as_list(*body);
            lemma_weight_concat(list, run);
            let inner = StmtV::Block(list + run);
            assert(stmt_weight(inner) == 1 + stmts_weight(list + run));
            if !(*body is Block) {
                lemma_stmts_weight_first(list);
                assert(list.skip(1) =~= seq![]);
                assert(stmts_weight(list) == 1 + stmt_weight(*body));
            }
            assert(stmt_weight(inner) <= stmt_weight(*body) + 2 + stmts_weight(run));
            assert(stmt_weight(whole) == stmt_weight(v[t]) - stmt_weight(*body) + stmt_weight(
                inner,
            ));
            assert(v.take(t).push(whole).last() == whole);
            assert(v.take(t).push(v[t]).last() == v[t]);
        }
    }
}

/// Puts empty blocks at the given places.
#[verifier::loop_isolation(false)]
fn empty_at(v: &mut Vec<Stmt>, at: &Vec<usize>)
    requires
        forall|k: int| 0 <= k < at.len() ==> #[trigger] at@[k] < old(v).len(),
    ensures
        stmts(final(v)@) == emptied(stmts(old(v)@), indices(at@)),
        final(v).len() == old(v).len(),
{
    let ghost start = stmts(v@);
    let ghost ks = indices(at@);
    let mut i: usize = 0;
    assert(ks.take(0) =~= seq![]);
    while i < at.len()
        invariant
            i <= at.len(),
            v.len() == old(v).len(),
            stmts(v@) == emptied(start, ks.take(i as int)),
        decreases at.len() - i,
    {
        let ghost before = stmts(v@);
        assert(ks.take(i + 1).drop_last() =~= ks.take(i as int));
        assert(ks.take(i + 1).last() == at@[i as int]);
        let k = at[i];
        v[k] = no_stmt();
        assert(stmts(v@) =~= before.update(k as int, empty_block()));
        i += 1;
    }
    assert(ks.take(i as int) =~= ks);
}

/// Turns a plain `try` into one with a resource.
fn add_resource(s: Stmt, resource: Stmt, keep: Vec<Catch>) -> (r: Stmt)
    ensures
        r@ == with_resource(s@, resource@, catch_list(keep@)),
{
    match s {
        Stmt::Try { body, .. } => {
            let ghost res = resource@;
            let mut resources: Vec<Stmt> = Vec::new();
            resources.push(resource);
            assert(stmts(resources@) =~= seq![res]);
            let none: Option<Box<Stmt>> = None;
            assert(opt_stmt(none) is None);
            Stmt::TryWithResources { resources, body, catches: keep, finally: none }
        },
        other => other,
    }
}

/// Takes the statement at `k` out, leaving an empty block.
fn take_at(v: &mut Vec<Stmt>, k: usize) -> (r: Stmt)
    requires
        k < old(v).len(),
    ensures
        r@ == stmts(old(v)@)[k as int],
        stmts(final(v)@) == stmts(old(v)@).update(k as int, empty_block()),
        final(v).len() == old(v).len(),
{
    let ghost all = stmts(v@);
    assert(all[k as int] == v@[k as int]@);
    let r = take_stmt(&mut v[k]);
    assert(stmts(v@) =~= all.update(k as int, empty_block()));
    r
}

/// Puts a statement at `k`.
fn put_at(v: &mut Vec<Stmt>, k: usize, s: Stmt)
    requires
        k < old(v).len(),
    ensures
        stmts(final(v)@) == stmts(old(v)@).update(k as int, s@),
        final(v).len() == old(v).len(),
{
    let ghost all = stmts(v@);
    let ghost x = s@;
    v[k] = s;
    assert(stmts(v@) =~= all.update(k as int, x));
}

/// Carries out a plan, leaving empty blocks where declarations were.
#[verifier::spinoff_prover]
fn apply_j7(v: &mut Vec<Stmt>, i: usize, plan: J7Plan)
    requires
        i < old(v).len(),
        plan_at(stmts(old(v)@), i as int) == Some(
            PlanV {
                resource: plan.res_idx as int,
                inits: indices(plan.init_idxs@),
                keep: catch_list(plan.keep_catches@),
            },
        ),
    ensures
        stmts(final(v)@) == replaced(
            stmts(old(v)@),
            i as int,
            PlanV {
                resource: plan.res_idx as int,
                inits: indices(plan.init_idxs@),
                keep: catch_list(plan.keep_catches@),
            },
        ),
{
    let ghost all = stmts(v@);
    let ghost p = plan_at(all, i as int).unwrap();
    proof {
        lemma_carried_out(all, i as int);
        assert forall|k: int| 0 <= k < plan.init_idxs.len() implies #[trigger] plan.init_idxs@[k]
            < v.len() by {
            assert(p.inits[k] == plan.init_idxs@[k]);
        }
    }
    let resource = take_at(v, plan.res_idx);
    let old_try = take_at(v, i);
    let new_try = add_resource(old_try, resource, plan.keep_catches);
    empty_at(v, &plan.init_idxs);
    proof {
        lemma_emptied_commutes(
            all.update(p.resource, empty_block()),
            p.inits,
            i as int,
            empty_block(),
        );
    }
    put_at(v, i, new_try);
    assert(stmts(v@) =~= replaced(all, i as int, p));
}

/// What stands at `i` before places are emptied does not matter once it is replaced.
proof fn lemma_emptied_commutes(v: Seq<StmtV>, at: Seq<int>, i: int, x: StmtV)
    requires
        0 <= i < v.len(),
        forall|k: int| 0 <= k < at.len() ==> 0 <= #[trigger] at[k] < v.len(),
    ensures
        emptied(v, at).len() == v.len(),
        emptied(v.update(i, x), at).len() == v.len(),
        forall|j: int|
            0 <= j < v.len() && j != i ==> #[trigger] emptied(v.update(i, x), at)[j] == emptied(
                v,
                at,
            )[j],
    decreases at.len(),
{
    if at.len() > 0 {
        let front = at.drop_last();
        assert forall|k: int| 0 <= k < front.len() implies 0 <= #[trigger] front[k] < v.len() by {
            assert(front[k] == at[k]);
        }
        lemma_emptied_commutes(v, front, i, x);
        assert(0 <= at[at.len() - 1] < v.len());
    }
}

/// Counts the statements before `i` that are not empty blocks.
#[verifier::loop_isolation(false)]
fn count_kept(v: &Vec<Stmt>, i: usize) -> (t: usize)
    requires
        i <= v.len(),
    ensures
        t == kept_before(stmts(v@), i as int),
{
    let ghost all = stmts(v@);
    let mut j: usize = 0;
    let mut t: usize = 0;
    assert(all.take(0) =~= seq![]);
    while j < i
        invariant
            j <= i,
            t <= j,
            t == kept_before(all, j as int),
        decreases i - j,
    {
        assert(all.take(j + 1).drop_last() =~= all.take(j as int));
        assert(all.take(j + 1).last() == v@[j as int]@);
        if !v[j].is_empty_block() {
            t += 1;
        }
        j += 1;
    }
    t
}

/// Removes the scaffolding from `k` on.
#[verifier::loop_isolation(false)]
#[verifier::spinoff_prover]
fn drop_scaffold(v: &mut Vec<Stmt>, k: usize)
    requires
        k <= old(v).len(),
    ensures
        stmts(final(v)@) == stmts(old(v)@).take(k as int) + skip_scaffold(
            stmts(old(v)@).skip(k as int),
        ),
{
    let ghost head = stmts(v@).take(k as int);
    let ghost goal = skip_scaffold(stmts(v@).skip(k as int));
    while k < v.len() && is_close_scaffold_stmt(&v[k])
        invariant
            k <= v.len(),
            stmts(v@).take(k as int) == head,
            skip_scaffold(stmts(v@).skip(k as int)) == goal,
        decreases v.len(),
    {
        let ghost before = stmts(v@);
        assert(before.skip(k as int)[0] == v@[k as int]@);
        v.remove(k);
        assert(stmts(v@).take(k as int) =~= before.take(k as int));
        assert(stmts(v@).skip(k as int) =~= before.skip(k as int).skip(1));
    }
    if k < v.len() {
        assert(stmts(v@).skip(k as int)[0] == v@[k as int]@);
    }
    assert(stmts(v@) =~= stmts(v@).take(k as int) + stmts(v@).skip(k as int));
}

/// Whether a statement only ends in a `return` or `throw`.
fn is_exit(s: &Stmt) -> (r: bool)
    ensures
        r == exits(s@),
    decreases s,
{
    match s {
        Stmt::Block(v) => {
            assert(stmts(v@).len() == v@.len());
            if v.len() == 0 {
                return false;
            }
            let k = v.len() - 1;
            assert(decreases_to!(v => v@[k as int]));
            assert(stmts(v@)[k as int] == v@[k as int]@);
            is_exit(&v[k])
        },
        Stmt::Return(_) => true,
        Stmt::Throw(_) => true,
        _ => false,
    }
}

/// Whether every statement of an arm exits.
#[verifier::loop_isolation(false)]
fn is_exit_arm(c: &CaseGroup) -> (r: bool)
    ensures
        r == arm_exits(c@),
{
    let ghost all = stmts(c.body@);
    let mut i: usize = 0;
    while i < c.body.len()
        invariant
            i <= c.body.len(),
            forall|j: int| 0 <= j < i ==> exits(#[trigger] all[j]),
        decreases c.body.len() - i,
    {
        assert(all[i as int] == c.body@[i as int]@);
        if !is_exit(&c.body[i]) {
            assert(!exits(c@.body[i as int]));
            return false;
        }
        i += 1;
    }
    true
}

/// Whether all arms exit.
#[verifier::loop_isolation(false)]
fn are_exit_arms(l: &Vec<CaseGroup>) -> (r: bool)
    ensures
        r == arms_exit(case_groups(l@)),
{
    let ghost all = case_groups(l@);
    let mut i: usize = 0;
    while i < l.len()
        invariant
            i <= l.len(),
            forall|j: int| 0 <= j < i ==> arm_exits(#[trigger] all[j]),
        decreases l.len() - i,
    {
        assert(all[i as int] == l@[i as int]@);
        if !is_exit_arm(&l[i]) {
            return false;
        }
        i += 1;
    }
    true
}

/// Whether a statement ends in a switch all of whose arms exit.
fn ends_switch(s: &Stmt) -> (r: bool)
    ensures
        r == ends_in_switch(s@),
    decreases s,
{
    match s {
        Stmt::Block(v) => {
            assert(stmts(v@).len() == v@.len());
            if v.len() == 0 {
                return false;
            }
            let k = v.len() - 1;
            assert(decreases_to!(v => v@[k as int]));
            assert(stmts(v@)[k as int] == v@[k as int]@);
            ends_switch(&v[k])
        },
        Stmt::Switch { cases, default, .. } => {
            assert(opt_stmt(*default) == (match default {
                Some(x) => Some(Box::new(x@)),
                None => None,
            }));
            are_exit_arms(cases) && match default {
                Some(d) => is_exit(d),
                None => false,
            }
        },
        _ => false,
    }
}

/// Whether a statement has no control flow of its own.
fn plain(s: &Stmt) -> (r: bool)
    ensures
        r == is_plain(s@),
{
    match s {
        Stmt::ExprStmt(_) => true,
        Stmt::LocalDef { .. } => true,
        Stmt::Return(_) => true,
        Stmt::Throw(_) => true,
        _ => false,
    }
}

/// How many statements from `j` on are plain.
#[verifier::loop_isolation(false)]
fn count_plain(v: &Vec<Stmt>, j: usize) -> (r: usize)
    requires
        j <= v.len(),
    ensures
        r == plain_run(stmts(v@), j as int),
        j + r <= v.len(),
{
    let ghost all = stmts(v@);
    let mut k: usize = j;
    while k < v.len() && plain(&v[k])
        invariant
            j <= k <= v.len(),
            plain_run(all, j as int) == (k - j) + plain_run(all, k as int),
        decreases v.len() - k,
    {
        assert(all[k as int] == v@[k as int]@);
        k += 1;
    }
    if k < v.len() {
        assert(all[k as int] == v@[k as int]@);
    }
    k - j
}

/// Whether a `try` with resources ends in a switch all of whose arms exit.
fn body_ends_switch(s: &Stmt) -> (r: bool)
    ensures
        r == body_ends_in_switch(s@),
{
    match s {
        Stmt::TryWithResources { body, .. } => ends_switch(body),
        _ => false,
    }
}

/// Puts `tail` at the end of the body of a `try` with resources.
fn put_tail(s: &mut Stmt, tail: Vec<Stmt>)
    ensures
        final(s)@ == with_tail(old(s)@, stmts(tail@)),
{
    let ghost back = stmts(tail@);
    let whole = take_stmt(s);
    *s = match whole {
        Stmt::TryWithResources { resources, body, catches, finally } => {
            let mut list = into_vec(*body);
            let ghost front = stmts(list@);
            let mut tail = tail;
            list.append(&mut tail);
            assert(stmts(list@) =~= front + back);
            let inner = Stmt::Block(list);
            assert(inner@ == StmtV::Block(front + back));
            Stmt::TryWithResources { resources, body: Box::new(inner), catches, finally }
        },
        other => other,
    };
}

/// Takes the `n` statements after `t` out.
#[verifier::loop_isolation(false)]
#[verifier::spinoff_prover]
fn take_run(v: &mut Vec<Stmt>, t: usize, n: usize) -> (tail: Vec<Stmt>)
    requires
        t + 1 + n <= old(v).len(),
    ensures
        stmts(tail@) == stmts(old(v)@).subrange(t + 1, t + 1 + n),
        stmts(final(v)@) == stmts(old(v)@).take(t + 1) + stmts(old(v)@).skip(t + 1 + n),
{
    let ghost all = stmts(v@);
    assert(all.len() == v@.len());
    assert(all =~= all.take(t + 1) + all.skip(t + 1));
    let mut tail: Vec<Stmt> = Vec::new();
    let mut k: usize = 0;
    assert(stmts(tail@) =~= all.subrange(t + 1, t + 1));
    while k < n
        invariant
            k <= n,
            v.len() == all.len() - k,
            stmts(v@) == all.take(t + 1) + all.skip(t + 1 + k),
            stmts(tail@) == all.subrange(t + 1, t + 1 + k),
        decreases n - k,
    {
        let ghost before = stmts(v@);
        let ghost got = stmts(tail@);
        assert(before[t + 1] == all[t + 1 + k]);
        assert(before[t + 1] == v@[t + 1]@);
        let s = v.remove(t + 1);
        assert(stmts(v@) =~= before.remove(t + 1));
        assert(stmts(v@) =~= all.take(t + 1) + all.skip(t + 1 + k + 1));
        tail.push(s);
        assert(stmts(tail@) =~= all.subrange(t + 1, t + 1 + k + 1));
        k += 1;
    }
    tail
}

/// Lets the `try` with resources at `t` take in the plain statements after it.
#[verifier::loop_isolation(false)]
#[verifier::spinoff_prover]
fn take_in(v: &mut Vec<Stmt>, t: usize)
    requires
        t < old(v).len(),
    ensures
        stmts(final(v)@) == taken_in(stmts(old(v)@), t as int),
{
    let ghost all = stmts(v@);
    let n = count_plain(v, t + 1);
    assert(all[t as int] == v@[t as int]@);
    if n == 0 || !body_ends_switch(&v[t]) {
        return ;
    }
    assert(all[t + n] == v@[t + n]@);
    let done = match &v[t + n] {
        Stmt::Return(_) => true,
        Stmt::Throw(_) => true,
        _ => false,
    };
    if !done {
        return ;
    }
    let tail = take_run(v, t, n);
    let ghost shorter = stmts(v@);
    let ghost run = stmts(tail@);
    assert(shorter.len() == v@.len());
    assert(shorter[t as int] == v@[t as int]@);
    put_tail(&mut v[t], tail);
    assert(shorter[t as int] == all[t as int]);
    assert(stmts(v@) =~= shorter.update(t as int, with_tail(all[t as int], run)));
    assert(stmts(v@) =~= all.take(t as int).push(with_tail(all[t as int], run)) + all.skip(
        t + 1 + n,
    ));
    drop_empty(v);
}

/// Carries out a plan; the place to go on from.
fn carry_out(v: &mut Vec<Stmt>, i: usize, plan: J7Plan) -> (k: usize)
    requires
        i < old(v).len(),
        plan_at(stmts(old(v)@), i as int) == Some(
            PlanV {
                resource: plan.res_idx as int,
                inits: indices(plan.init_idxs@),
                keep: catch_list(plan.keep_catches@),
            },
        ),
    ensures
        (stmts(final(v)@), k as int) == carried_out(
            stmts(old(v)@),
            i as int,
            plan_at(stmts(old(v)@), i as int).unwrap(),
        ),
{
    let ghost all = stmts(v@);
    proof {
        lemma_carried_out(all, i as int);
        lemma_kept(replaced(all, i as int, plan_at(all, i as int).unwrap()), i as int);
    }
    apply_j7(v, i, plan);
    assert(stmts(v@).len() == v@.len());
    let t = count_kept(v, i);
    drop_empty(v);
    assert(stmts(v@).len() == v@.len());
    assert(t < v.len());
    drop_scaffold(v, t + 1);
    take_in(v, t);
    t + 1
}

// ---------------------------------------------------------------------
// The pass.

/// The statements of a block from `i` on, in order: each one is rewritten inside, and
/// then becomes a `try` with a resource where there is a plan for it. A rewritten
/// statement is never heavier than before.
pub open spec fn resources_from(v: Seq<StmtV>, i: int) -> Seq<StmtV>
    decreases stmts_weight(v), 1nat, (v.len() - i) as nat
    via resources_from_decreases
{
    if i < 0 || i >= v.len() {
        v
    } else {
        let x = resources_restored(v[i]);
        if stmt_weight(x) > stmt_weight(v[i]) {
            v
        } else {
            let v1 = v.update(i, x);
            match plan_at(v1, i) {
                Some(p) => {
                    let (v2, k) = carried_out(v1, i, p);
                    resources_from(v2, k)
                },
                None => resources_from(v1, i + 1),
            }
        }
    }
}

#[via_fn]
proof fn resources_from_decreases(v: Seq<StmtV>, i: int) {
    if 0 <= i < v.len() {
        lemma_stmts_weight(v, i);
        assert forall|x: StmtV| stmt_weight(x) <= stmt_weight(v[i]) implies {
            &&& stmts_weight(v.update(i, x)) <= stmts_weight(v)
            &&& #[trigger] plan_at(v.update(i, x), i) matches Some(p) ==> stmts_weight(
                carried_out(v.update(i, x), i, p).0,
            ) < stmts_weight(v)
        } by {
            lemma_weight_update(v, i, x);
            lemma_carried_out(v.update(i, x), i);
        }
    }
}

/// `s` with its `try` statements with resources restored.
pub open spec fn resources_restored(s: StmtV) -> StmtV
    decreases stmt_weight(s), 0nat, 0nat,
{
    match s {
        StmtV::Block(items) => StmtV::Block(resources_from(items, 0)),
        StmtV::If { cond, then_stmt, else_stmt } => StmtV::If {
            cond,
            then_stmt: Box::new(resources_restored(*then_stmt)),
            else_stmt: resources_restored_opt(else_stmt),
        },
        StmtV::While { cond, body } => StmtV::While {
            cond,
            body: Box::new(resources_restored(*body)),
        },
        StmtV::DoWhile { body, cond } => StmtV::DoWhile {
            body: Box::new(resources_restored(*body)),
            cond,
        },
        StmtV::For { init, cond, update, body } => StmtV::For {
            init: resources_restored_seq(init),
            cond,
            update,
            body: Box::new(resources_restored(*body)),
        },
        StmtV::ForEach { var, iterable, is_array, body } => StmtV::ForEach {
            var,
            iterable,
            is_array,
            body: Box::new(resources_restored(*body)),
        },
        StmtV::Switch { selector, cases, default, on_string } => StmtV::Switch {
            selector,
            cases: resources_restored_cases(cases),
            default: resources_restored_opt(default),
            on_string,
        },
        StmtV::Try { body, catches, finally } => StmtV::Try {
            body: Box::new(resources_restored(*body)),
            catches: resources_restored_catches(catches),
            finally: resources_restored_opt(finally),
        },
        StmtV::TryWithResources { resources, body, catches, finally } => StmtV::TryWithResources {
            resources: resources_restored_seq(resources),
            body: Box::new(resources_restored(*body)),
            catches: resources_restored_catches(catches),
            finally: resources_restored_opt(finally),
        },
        StmtV::Synchronized { lock, body } => StmtV::Synchronized {
            lock,
            body: Box::new(resources_restored(*body)),
        },
        StmtV::Labeled { label, body } => StmtV::Labeled {
            label,
            body: Box::new(resources_restored(*body)),
        },
        _ => s,
    }
}

/// [`resources_restored`] where there is a value.
pub open spec fn resources_restored_opt(o: Option<Box<StmtV>>) -> Option<Box<StmtV>>
    decreases opt_stmt_weight(o), 0nat, 0nat,
{
    match o {
        Some(x) => Some(Box::new(resources_restored(*x))),
        None => None,
    }
}

/// [`resources_restored`] over a list.
pub open spec fn resources_restored_seq(v: Seq<StmtV>) -> Seq<StmtV>
    decreases stmts_weight(v), 0nat, 0nat,
{
    if v.len() == 0 {
        seq![]
    } else {
        resources_restored_seq(v.drop_last()).push(resources_restored(v.last()))
    }
}

/// [`resources_restored`] inside a switch arm.
pub open spec fn resources_restored_case(c: CaseGroupV) -> CaseGroupV
    decreases case_weight(c), 0nat, 0nat,
{
    CaseGroupV { body: resources_restored_seq(c.body), ..c }
}

/// [`resources_restored`] over a list.
pub open spec fn resources_restored_cases(v: Seq<CaseGroupV>) -> Seq<CaseGroupV>
    decreases cases_weight(v), 0nat, 0nat,
{
    if v.len() == 0 {
        seq![]
    } else {
        resources_restored_cases(v.drop_last()).push(resources_restored_case(v.last()))
    }
}

/// [`resources_restored`] inside a catch clause.
pub open spec fn resources_restored_catch(c: CatchV) -> CatchV
    decreases catch_weight(c), 0nat, 0nat,
{
    CatchV { body: Box::new(resources_restored(*c.body)), ..c }
}

/// [`resources_restored`] over a list.
pub open spec fn resources_restored_catches(v: Seq<CatchV>) -> Seq<CatchV>
    decreases catches_weight(v), 0nat, 0nat,
{
    if v.len() == 0 {
        seq![]
    } else {
        resources_restored_catches(v.drop_last()).push(resources_restored_catch(v.last()))
    }
}

/// Restores `try` statements with resources.
pub fn twr_j7(s: &mut Stmt)
    ensures
        final(s)@ == resources_restored(old(s)@),
    decreases stmt_weight(old(s)@), 0nat, 0nat,
{
    match s {
        Stmt::Block(items) => restore_from(items),
        Stmt::If { then_stmt, else_stmt, .. } => { twr_j7(then_stmt); twr_j7_opt(else_stmt); },
        Stmt::While { body, .. } => { twr_j7(body); },
        Stmt::DoWhile { body, .. } => { twr_j7(body); },
        Stmt::For { init, body, .. } => { twr_j7_vec(init); twr_j7(body); },
        Stmt::ForEach { body, .. } => { twr_j7(body); },
        Stmt::Switch { cases, default, .. } => { twr_j7_cases(cases); twr_j7_opt(default); },
        Stmt::Try { body, catches, finally } => {
            twr_j7(body);
            twr_j7_catches(catches);
            twr_j7_opt(finally);
        },
        Stmt::TryWithResources { resources, body, catches, finally } => {
            twr_j7_vec(resources);
            twr_j7(body);
            twr_j7_catches(catches);
            twr_j7_opt(finally);
        },
        Stmt::Synchronized { body, .. } => { twr_j7(body); },
        Stmt::Labeled { body, .. } => { twr_j7(body); },
        _ => {},
    }
}

/// `twr_j7` where there is a value.
pub fn twr_j7_opt(o: &mut Option<Box<Stmt>>)
    ensures
        opt_stmt(*final(o)) == resources_restored_opt(opt_stmt(*old(o))),
    decreases opt_stmt_weight(opt_stmt(*old(o))), 0nat, 0nat,
{
    if let Some(x) = o {
        twr_j7(x);
    }
}

/// `twr_j7` over a list.
#[verifier::loop_isolation(false)]
pub fn twr_j7_vec(v: &mut Vec<Stmt>)
    ensures
        stmts(final(v)@) == resources_restored_seq(stmts(old(v)@)),
    decreases stmts_weight(stmts(old(v)@)), 0nat, 0nat,
{
    let ghost all = stmts(v@);
    let mut i: usize = 0;
    assert(stmts(v@.take(0)) =~= seq![]);
    while i < v.len()
        invariant
            i <= v.len(),
            v.len() == old(v).len(),
            stmts(v@.take(i as int)) == resources_restored_seq(all.take(i as int)),
            forall|j: int| i <= j < v.len() ==> #[trigger] v@[j] == old(v)@[j],
        decreases v.len() - i,
    {
        let ghost before = stmts(v@.take(i as int));
        assert(all.take(i + 1).drop_last() =~= all.take(i as int));
        assert(all.take(i + 1).last() == v@[i as int]@);
        proof {
            lemma_stmts_weight(stmts(old(v)@), i as int);
        }
        twr_j7(&mut v[i]);
        i += 1;
        assert(stmts(v@.take(i as int)) =~= before.push(v@[i - 1]@));
    }
    assert(v@.take(i as int) =~= v@);
    assert(all.take(i as int) =~= all);
}

/// `twr_j7` inside a switch arm.
pub fn twr_j7_case(c: &mut CaseGroup)
    ensures
        final(c)@ == resources_restored_case(old(c)@),
    decreases case_weight(old(c)@), 0nat, 0nat,
{
    twr_j7_vec(&mut c.body);
}

/// `twr_j7` over a list.
#[verifier::loop_isolation(false)]
pub fn twr_j7_cases(v: &mut Vec<CaseGroup>)
    ensures
        case_groups(final(v)@) == resources_restored_cases(case_groups(old(v)@)),
    decreases cases_weight(case_groups(old(v)@)), 0nat, 0nat,
{
    let ghost all = case_groups(v@);
    let mut i: usize = 0;
    assert(case_groups(v@.take(0)) =~= seq![]);
    while i < v.len()
        invariant
            i <= v.len(),
            v.len() == old(v).len(),
            case_groups(v@.take(i as int)) == resources_restored_cases(all.take(i as int)),
            forall|j: int| i <= j < v.len() ==> #[trigger] v@[j] == old(v)@[j],
        decreases v.len() - i,
    {
        let ghost before = case_groups(v@.take(i as int));
        assert(all.take(i + 1).drop_last() =~= all.take(i as int));
        assert(all.take(i + 1).last() == v@[i as int]@);
        proof {
            lemma_cases_weight(case_groups(old(v)@), i as int);
        }
        twr_j7_case(&mut v[i]);
        i += 1;
        assert(case_groups(v@.take(i as int)) =~= before.push(v@[i - 1]@));
    }
    assert(v@.take(i as int) =~= v@);
    assert(all.take(i as int) =~= all);
}

/// `twr_j7` inside a catch clause.
pub fn twr_j7_catch(c: &mut Catch)
    ensures
        final(c)@ == resources_restored_catch(old(c)@),
    decreases catch_weight(old(c)@), 0nat, 0nat,
{
    twr_j7(&mut c.body);
}

/// `twr_j7` over a list.
#[verifier::loop_isolation(false)]
#[verifier::spinoff_prover]
pub fn twr_j7_catches(v: &mut Vec<Catch>)
    ensures
        catch_list(final(v)@) == resources_restored_catches(catch_list(old(v)@)),
    decreases catches_weight(catch_list(old(v)@)), 0nat, 0nat,
{
    let ghost all = catch_list(v@);
    let mut i: usize = 0;
    assert(catch_list(v@.take(0)) =~= seq![]);
    while i < v.len()
        invariant
            i <= v.len(),
            v.len() == old(v).len(),
            catch_list(v@.take(i as int)) == resources_restored_catches(all.take(i as int)),
            forall|j: int| i <= j < v.len() ==> #[trigger] v@[j] == old(v)@[j],
        decreases v.len() - i,
    {
        let ghost before = catch_list(v@.take(i as int));
        assert(all.take(i + 1).drop_last() =~= all.take(i as int));
        assert(all.take(i + 1).last() == v@[i as int]@);
        proof {
            lemma_catches_weight(catch_list(old(v)@), i as int);
        }
        twr_j7_catch(&mut v[i]);
        i += 1;
        assert(catch_list(v@.take(i as int)) =~= before.push(v@[i - 1]@));
    }
    assert(v@.take(i as int) =~= v@);
    assert(all.take(i as int) =~= all);
}

/// A statement is never heavier than before.
proof fn lemma_restored(s: StmtV)
    ensures
        stmt_weight(resources_restored(s)) <= stmt_weight(s),
    decreases stmt_weight(s), 0nat, 0nat,
{
    match s {
        StmtV::Block(items) => {
            lemma_restored_from(items, 0);
            let w = resources_from(items, 0);
            assert(resources_restored(s) == StmtV::Block(w));
            assert(stmt_weight(StmtV::Block(w)) == 1 + stmts_weight(w));
        },
        StmtV::If { then_stmt, else_stmt, .. } => {
            lemma_restored(*then_stmt);
            lemma_restored_opt(else_stmt);
        },
        StmtV::While { body, .. } => { lemma_restored(*body);  },
        StmtV::DoWhile { body, .. } => { lemma_restored(*body);  },
        StmtV::For { init, body, .. } => { lemma_restored_seq(init); lemma_restored(*body);  },
        StmtV::ForEach { body, .. } => { lemma_restored(*body);  },
        StmtV::Switch { cases, default, .. } => {
            lemma_restored_cases(cases);
            lemma_restored_opt(default);
        },
        StmtV::Try { body, catches, finally } => {
            lemma_restored(*body);
            lemma_restored_catches(catches);
            lemma_restored_opt(finally);
        },
        StmtV::TryWithResources { resources, body, catches, finally } => {
            lemma_restored_seq(resources);
            lemma_restored(*body);
            lemma_restored_catches(catches);
            lemma_restored_opt(finally);
        },
        StmtV::Synchronized { body, .. } => { lemma_restored(*body);  },
        StmtV::Labeled { body, .. } => { lemma_restored(*body);  },
        _ => {},
    }
}

/// [`lemma_restored`] where there is a statement.
proof fn lemma_restored_opt(o: Option<Box<StmtV>>)
    ensures
        opt_stmt_weight(resources_restored_opt(o)) <= opt_stmt_weight(o),
    decreases opt_stmt_weight(o), 0nat, 0nat,
{
    if let Some(x) = o {
        lemma_restored(*x);
    }
}

/// [`lemma_restored`] over a list.
proof fn lemma_restored_seq(v: Seq<StmtV>)
    ensures
        stmts_weight(resources_restored_seq(v)) <= stmts_weight(v),
    decreases stmts_weight(v), 0nat, 0nat,
{
    if v.len() > 0 {
        lemma_restored_seq(v.drop_last());
        lemma_restored(v.last());
        assert(resources_restored_seq(v).drop_last() =~= resources_restored_seq(v.drop_last()));
    }
}

/// [`lemma_restored`] over switch arms.
proof fn lemma_restored_cases(v: Seq<CaseGroupV>)
    ensures
        cases_weight(resources_restored_cases(v)) <= cases_weight(v),
    decreases cases_weight(v), 0nat, 0nat,
{
    if v.len() > 0 {
        lemma_restored_cases(v.drop_last());
        lemma_restored_case(v.last());
        assert(resources_restored_cases(v).drop_last() =~= resources_restored_cases(v.drop_last()));
    }
}

/// [`lemma_restored`] inside a switch arm.
proof fn lemma_restored_case(c: CaseGroupV)
    ensures
        case_weight(resources_restored_case(c)) <= case_weight(c),
    decreases case_weight(c), 0nat, 0nat,
{
    lemma_restored_seq(c.body);
}

/// [`lemma_restored`] over catch clauses.
proof fn lemma_restored_catches(v: Seq<CatchV>)
    ensures
        catches_weight(resources_restored_catches(v)) <= catches_weight(v),
    decreases catches_weight(v), 0nat, 0nat,
{
    if v.len() > 0 {
        lemma_restored_catches(v.drop_last());
        lemma_restored_catch(v.last());
        assert(
            resources_restored_catches(v).drop_last() =~= resources_restored_catches(v.drop_last())
        );
    }
}

/// [`lemma_restored`] inside a catch clause.
proof fn lemma_restored_catch(c: CatchV)
    ensures
        catch_weight(resources_restored_catch(c)) <= catch_weight(c),
    decreases catch_weight(c), 0nat, 0nat,
{
    lemma_restored(*c.body);
}

/// A list is never heavier than before.
proof fn lemma_restored_from(v: Seq<StmtV>, i: int)
    ensures
        stmts_weight(resources_from(v, i)) <= stmts_weight(v),
    decreases stmts_weight(v), 1nat, (v.len() - i) as nat,
{
    if 0 <= i < v.len() {
        lemma_stmts_weight(v, i);
        let x = resources_restored(v[i]);
        if stmt_weight(x) <= stmt_weight(v[i]) {
            let v1 = v.update(i, x);
            lemma_weight_update(v, i, x);
            lemma_carried_out(v1, i);
            match plan_at(v1, i) {
                Some(p) => {
                    let (v2, k) = carried_out(v1, i, p);
                    lemma_restored_from(v2, k);
                },
                None => {
                    lemma_restored_from(v1, i + 1);
                },
            }
        }
    }
}

/// Restores the `try` statements with resources of a block.
#[verifier::loop_isolation(false)]
#[verifier::spinoff_prover]
fn restore_from(v: &mut Vec<Stmt>)
    ensures
        stmts(final(v)@) == resources_from(stmts(old(v)@), 0),
    decreases stmts_weight(stmts(old(v)@)), 1nat, 0nat,
{
    let ghost whole = stmts_weight(stmts(v@));
    let ghost goal = resources_from(stmts(v@), 0);
    let mut i: usize = 0;
    while i < v.len()
        invariant
            stmts_weight(stmts(v@)) <= whole,
            resources_from(stmts(v@), i as int) == goal,
        decreases stmts_weight(stmts(v@)), v.len() - i,
    {
        let ghost before = stmts(v@);
        assert(before[i as int] == v@[i as int]@);
        proof {
            lemma_stmts_weight(before, i as int);
            lemma_restored(before[i as int]);
            lemma_weight_update(before, i as int, resources_restored(before[i as int]));
        }
        twr_j7(&mut v[i]);
        let ghost v1 = stmts(v@);
        assert(v1 =~= before.update(i as int, resources_restored(before[i as int])));
        proof {
            lemma_carried_out(v1, i as int);
        }
        match match_j7(v, i) {
            Some(plan) => {
                i = carry_out(v, i, plan);
            },
            None => {
                i += 1;
            },
        }
    }
    assert(resources_from(stmts(v@), i as int) == stmts(v@));
}

} // verus!
