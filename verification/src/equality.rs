//! Equality of trees, floating constants compared by value, as a relation.
use crate::expr::{
    nan32, nan64, same_const, same_expr, same_exprs, same_lambda, same_opt_box, same_opt_expr,
    same_opt_exprs, same_part, same_parts, ConcatPartV, ConstValV, ExprV, LambdaExprV,
};
use crate::stmt::{
    same_case, same_cases, same_catch, same_catches, same_opt_stmt, same_stmt, same_stmts,
    CaseGroupV, CatchV, StmtV,
};
use vstd::prelude::*;

verus! {

/// Equality of expressions can be turned round.
proof fn lemma_expr(a: ExprV, b: ExprV)
    requires
        same_expr(a, b),
    ensures
        same_expr(b, a),
    decreases a,
{
    match (a, b) {
        (ExprV::New { args: args1, .. }, ExprV::New { args: args2, .. }) => {
            lemma_exprs(args1, args2);
        },
        (
            ExprV::NewArray { dims: dims1, init: init1, .. },
            ExprV::NewArray { dims: dims2, init: init2, .. },
        ) => {
            lemma_exprs(dims1, dims2);
            lemma_opt_exprs(init1, init2);
        },
        (ExprV::NewMultiArray { dims: dims1, .. }, ExprV::NewMultiArray { dims: dims2, .. }) => {
            lemma_exprs(dims1, dims2);
        },
        (ExprV::Field { owner: owner1, .. }, ExprV::Field { owner: owner2, .. }) => {
            lemma_opt_box(owner1, owner2);
        },
        (
            ExprV::Method { owner: owner1, args: args1, .. },
            ExprV::Method { owner: owner2, args: args2, .. },
        ) => {
            lemma_opt_box(owner1, owner2);
            lemma_exprs(args1, args2);
        },
        (
            ExprV::ArrayIndex { array: array1, index: index1 },
            ExprV::ArrayIndex { array: array2, index: index2 },
        ) => {
            lemma_expr(*array1, *array2);
            lemma_expr(*index1, *index2);
        },
        (ExprV::Cast { e: e1, .. }, ExprV::Cast { e: e2, .. }) => {
            lemma_expr(*e1, *e2);
        },
        (ExprV::InstanceOf { e: e1, .. }, ExprV::InstanceOf { e: e2, .. }) => {
            lemma_expr(*e1, *e2);
        },
        (ExprV::Un { e: e1, .. }, ExprV::Un { e: e2, .. }) => {
            lemma_expr(*e1, *e2);
        },
        (ExprV::Bin { l: l1, r: r1, .. }, ExprV::Bin { l: l2, r: r2, .. }) => {
            lemma_expr(*l1, *l2);
            lemma_expr(*r1, *r2);
        },
        (ExprV::Cond { c: c1, t: t1, f: f1 }, ExprV::Cond { c: c2, t: t2, f: f2 }) => {
            lemma_expr(*c1, *c2);
            lemma_expr(*t1, *t2);
            lemma_expr(*f1, *f2);
        },
        (
            ExprV::Assign { target: target1, value: value1, .. },
            ExprV::Assign { target: target2, value: value2, .. },
        ) => {
            lemma_expr(*target1, *target2);
            lemma_expr(*value1, *value2);
        },
        (ExprV::PreIncDec { e: e1, .. }, ExprV::PreIncDec { e: e2, .. }) => {
            lemma_expr(*e1, *e2);
        },
        (ExprV::PostIncDec { e: e1, .. }, ExprV::PostIncDec { e: e2, .. }) => {
            lemma_expr(*e1, *e2);
        },
        (ExprV::Lambda(l1), ExprV::Lambda(l2)) => {
            lemma_lambda(*l1, *l2);
        },
        (ExprV::StringConcat(parts1), ExprV::StringConcat(parts2)) => {
            lemma_parts(parts1, parts2);
        },
        (ExprV::Invokedynamic { args: args1, .. }, ExprV::Invokedynamic { args: args2, .. }) => {
            lemma_exprs(args1, args2);
        },
        (ExprV::AnonNew { args: args1, .. }, ExprV::AnonNew { args: args2, .. }) => {
            lemma_exprs(args1, args2);
        },
        _ => {},
    }
}

/// [`lemma_expr`] of lambdas.
proof fn lemma_lambda(a: LambdaExprV, b: LambdaExprV)
    requires
        same_lambda(a, b),
    ensures
        same_lambda(b, a),
    decreases a,
{
    lemma_exprs(a.captures, b.captures);
}

/// [`lemma_expr`] of concatenation pieces.
proof fn lemma_part(a: ConcatPartV, b: ConcatPartV)
    requires
        same_part(a, b),
    ensures
        same_part(b, a),
    decreases a,
{
    if let (ConcatPartV::Str(x), ConcatPartV::Str(y)) = (a, b) {
        lemma_expr(x, y);
    }
}

/// [`lemma_expr`] over a list.
proof fn lemma_exprs(a: Seq<ExprV>, b: Seq<ExprV>)
    requires
        same_exprs(a, b),
    ensures
        same_exprs(b, a),
    decreases a,
{
    assert forall|i: int| 0 <= i < b.len() implies same_expr(#[trigger] b[i], a[i]) by {
        assert(same_expr(a[i], b[i]));
        lemma_expr(a[i], b[i]);
    }
}

/// [`lemma_expr`] over concatenation pieces.
proof fn lemma_parts(a: Seq<ConcatPartV>, b: Seq<ConcatPartV>)
    requires
        same_parts(a, b),
    ensures
        same_parts(b, a),
    decreases a,
{
    assert forall|i: int| 0 <= i < b.len() implies same_part(#[trigger] b[i], a[i]) by {
        assert(same_part(a[i], b[i]));
        lemma_part(a[i], b[i]);
    }
}

/// [`lemma_expr`] where there is an expression.
proof fn lemma_opt_box(a: Option<Box<ExprV>>, b: Option<Box<ExprV>>)
    requires
        same_opt_box(a, b),
    ensures
        same_opt_box(b, a),
    decreases a,
{
    if let (Some(x), Some(y)) = (a, b) {
        lemma_expr(*x, *y);
    }
}

/// [`lemma_expr`] where there is a list.
proof fn lemma_opt_exprs(a: Option<Seq<ExprV>>, b: Option<Seq<ExprV>>)
    requires
        same_opt_exprs(a, b),
    ensures
        same_opt_exprs(b, a),
    decreases a,
{
    if let (Some(x), Some(y)) = (a, b) {
        lemma_exprs(x, y);
    }
}

/// [`lemma_expr`] where there is an expression.
proof fn lemma_opt_expr(a: Option<ExprV>, b: Option<ExprV>)
    requires
        same_opt_expr(a, b),
    ensures
        same_opt_expr(b, a),
    decreases a,
{
    if let (Some(x), Some(y)) = (a, b) {
        lemma_expr(x, y);
    }
}

/// Equality of statements can be turned round.
proof fn lemma_stmt(a: StmtV, b: StmtV)
    requires
        same_stmt(a, b),
    ensures
        same_stmt(b, a),
    decreases a,
{
    match (a, b) {
        (StmtV::Block(items1), StmtV::Block(items2)) => {
            lemma_stmts(items1, items2);
        },
        (StmtV::ExprStmt(e1), StmtV::ExprStmt(e2)) => {
            lemma_expr(e1, e2);
        },
        (StmtV::LocalDef { init: init1, .. }, StmtV::LocalDef { init: init2, .. }) => {
            lemma_opt_expr(init1, init2);
        },
        (StmtV::Return(e1), StmtV::Return(e2)) => {
            lemma_opt_expr(e1, e2);
        },
        (StmtV::Throw(e1), StmtV::Throw(e2)) => {
            lemma_expr(e1, e2);
        },
        (
            StmtV::If { cond: cond1, then_stmt: then_stmt1, else_stmt: else_stmt1 },
            StmtV::If { cond: cond2, then_stmt: then_stmt2, else_stmt: else_stmt2 },
        ) => {
            lemma_expr(cond1, cond2);
            lemma_stmt(*then_stmt1, *then_stmt2);
            lemma_opt_stmt(else_stmt1, else_stmt2);
        },
        (StmtV::While { cond: cond1, body: body1 }, StmtV::While { cond: cond2, body: body2 }) => {
            lemma_expr(cond1, cond2);
            lemma_stmt(*body1, *body2);
        },
        (
            StmtV::DoWhile { body: body1, cond: cond1 },
            StmtV::DoWhile { body: body2, cond: cond2 },
        ) => {
            lemma_stmt(*body1, *body2);
            lemma_expr(cond1, cond2);
        },
        (
            StmtV::For { init: init1, cond: cond1, update: update1, body: body1 },
            StmtV::For { init: init2, cond: cond2, update: update2, body: body2 },
        ) => {
            lemma_stmts(init1, init2);
            lemma_opt_expr(cond1, cond2);
            lemma_exprs(update1, update2);
            lemma_stmt(*body1, *body2);
        },
        (
            StmtV::ForEach { iterable: iterable1, body: body1, .. },
            StmtV::ForEach { iterable: iterable2, body: body2, .. },
        ) => {
            lemma_expr(iterable1, iterable2);
            lemma_stmt(*body1, *body2);
        },
        (
            StmtV::Switch { selector: selector1, cases: cases1, default: default1, .. },
            StmtV::Switch { selector: selector2, cases: cases2, default: default2, .. },
        ) => {
            lemma_expr(selector1, selector2);
            lemma_cases(cases1, cases2);
            lemma_opt_stmt(default1, default2);
        },
        (
            StmtV::Try { body: body1, catches: catches1, finally: finally1 },
            StmtV::Try { body: body2, catches: catches2, finally: finally2 },
        ) => {
            lemma_stmt(*body1, *body2);
            lemma_catches(catches1, catches2);
            lemma_opt_stmt(finally1, finally2);
        },
        (
            StmtV::TryWithResources {
                resources: resources1,
                body: body1,
                catches: catches1,
                finally: finally1,
            },
            StmtV::TryWithResources {
                resources: resources2,
                body: body2,
                catches: catches2,
                finally: finally2,
            },
        ) => {
            lemma_stmts(resources1, resources2);
            lemma_stmt(*body1, *body2);
            lemma_catches(catches1, catches2);
            lemma_opt_stmt(finally1, finally2);
        },
        (StmtV::Assert { cond: cond1, msg: msg1 }, StmtV::Assert { cond: cond2, msg: msg2 }) => {
            lemma_expr(cond1, cond2);
            lemma_opt_expr(msg1, msg2);
        },
        (
            StmtV::Synchronized { lock: lock1, body: body1 },
            StmtV::Synchronized { lock: lock2, body: body2 },
        ) => {
            lemma_expr(lock1, lock2);
            lemma_stmt(*body1, *body2);
        },
        (StmtV::TernaryValue { e: e1 }, StmtV::TernaryValue { e: e2 }) => {
            lemma_expr(e1, e2);
        },
        (StmtV::MonitorEnter(e1), StmtV::MonitorEnter(e2)) => {
            lemma_expr(e1, e2);
        },
        (StmtV::MonitorExit(e1), StmtV::MonitorExit(e2)) => {
            lemma_expr(e1, e2);
        },
        (StmtV::Labeled { body: body1, .. }, StmtV::Labeled { body: body2, .. }) => {
            lemma_stmt(*body1, *body2);
        },
        _ => {},
    }
}

/// [`lemma_stmt`] of switch arms.
proof fn lemma_case(a: CaseGroupV, b: CaseGroupV)
    requires
        same_case(a, b),
    ensures
        same_case(b, a),
    decreases a,
{
    lemma_opt_expr(a.guard, b.guard);
    lemma_stmts(a.body, b.body);
}

/// [`lemma_stmt`] of catch clauses.
proof fn lemma_catch(a: CatchV, b: CatchV)
    requires
        same_catch(a, b),
    ensures
        same_catch(b, a),
    decreases a,
{
    lemma_stmt(*a.body, *b.body);
}

/// [`lemma_stmt`] over a list.
proof fn lemma_stmts(a: Seq<StmtV>, b: Seq<StmtV>)
    requires
        same_stmts(a, b),
    ensures
        same_stmts(b, a),
    decreases a,
{
    assert forall|i: int| 0 <= i < b.len() implies same_stmt(#[trigger] b[i], a[i]) by {
        assert(same_stmt(a[i], b[i]));
        lemma_stmt(a[i], b[i]);
    }
}

/// [`lemma_stmt`] over switch arms.
proof fn lemma_cases(a: Seq<CaseGroupV>, b: Seq<CaseGroupV>)
    requires
        same_cases(a, b),
    ensures
        same_cases(b, a),
    decreases a,
{
    assert forall|i: int| 0 <= i < b.len() implies same_case(#[trigger] b[i], a[i]) by {
        assert(same_case(a[i], b[i]));
        lemma_case(a[i], b[i]);
    }
}

/// [`lemma_stmt`] over catch clauses.
proof fn lemma_catches(a: Seq<CatchV>, b: Seq<CatchV>)
    requires
        same_catches(a, b),
    ensures
        same_catches(b, a),
    decreases a,
{
    assert forall|i: int| 0 <= i < b.len() implies same_catch(#[trigger] b[i], a[i]) by {
        assert(same_catch(a[i], b[i]));
        lemma_catch(a[i], b[i]);
    }
}

/// [`lemma_stmt`] where there is a statement.
proof fn lemma_opt_stmt(a: Option<Box<StmtV>>, b: Option<Box<StmtV>>)
    requires
        same_opt_stmt(a, b),
    ensures
        same_opt_stmt(b, a),
    decreases a,
{
    if let (Some(x), Some(y)) = (a, b) {
        lemma_stmt(*x, *y);
    }
}

/// Equality of expressions is symmetric.
pub proof fn law_expr_equality_is_symmetric(a: ExprV, b: ExprV)
    ensures
        same_expr(a, b) == same_expr(b, a),
{
    if same_expr(a, b) {
        lemma_expr(a, b);
    }
    if same_expr(b, a) {
        lemma_expr(b, a);
    }
}

/// Equality of statements is symmetric.
pub proof fn law_stmt_equality_is_symmetric(a: StmtV, b: StmtV)
    ensures
        same_stmt(a, b) == same_stmt(b, a),
{
    if same_stmt(a, b) {
        lemma_stmt(a, b);
    }
    if same_stmt(b, a) {
        lemma_stmt(b, a);
    }
}

/// A constant equals itself exactly if it is not a floating `NaN`.
pub proof fn law_constants_equal_themselves(c: ConstValV)
    ensures
        same_const(c, c) == match c {
            ConstValV::Float(x) => !nan32(x),
            ConstValV::Double(x) => !nan64(x),
            _ => true,
        },
{
}

} // verus!
