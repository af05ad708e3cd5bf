//! Sizes of statement trees, for passes that recur on rewritten statements.
use crate::stmt::{CaseGroupV, CatchV, StmtV};
use vstd::prelude::*;

verus! {

/// Number of statements in `s`, lists and clauses counted too.
pub open spec fn stmt_size(s: StmtV) -> nat
    decreases s,
{
    match s {
        StmtV::Block(items) => 1 + stmts_size(items),
        StmtV::If { then_stmt, else_stmt, .. } => 1 + stmt_size(*then_stmt) + opt_stmt_size(
            else_stmt,
        ),
        StmtV::While { body, .. } => 1 + stmt_size(*body),
        StmtV::DoWhile { body, .. } => 1 + stmt_size(*body),
        StmtV::For { init, body, .. } => 1 + stmts_size(init) + stmt_size(*body),
        StmtV::ForEach { body, .. } => 1 + stmt_size(*body),
        StmtV::Switch { cases, default, .. } => 1 + cases_size(cases) + opt_stmt_size(default),
        StmtV::Try { body, catches, finally } => 1 + stmt_size(*body) + catches_size(catches)
            + opt_stmt_size(finally),
        StmtV::TryWithResources { resources, body, catches, finally } => 1 + stmts_size(resources)
            + stmt_size(*body) + catches_size(catches) + opt_stmt_size(finally),
        StmtV::Synchronized { body, .. } => 1 + stmt_size(*body),
        StmtV::Labeled { body, .. } => 1 + stmt_size(*body),
        _ => 1,
    }
}

/// Size of an optional statement.
pub open spec fn opt_stmt_size(o: Option<Box<StmtV>>) -> nat
    decreases o,
{
    match o {
        Some(s) => 1 + stmt_size(*s),
        None => 1,
    }
}

/// Size of a statement list.
pub open spec fn stmts_size(v: Seq<StmtV>) -> nat
    decreases v,
{
    if v.len() == 0 {
        0
    } else {
        1 + stmts_size(v.drop_last()) + stmt_size(v.last())
    }
}

/// Size of a switch arm.
pub open spec fn case_size(c: CaseGroupV) -> nat
    decreases c,
{
    1 + stmts_size(c.body)
}

/// Size of a list of switch arms.
pub open spec fn cases_size(v: Seq<CaseGroupV>) -> nat
    decreases v,
{
    if v.len() == 0 {
        0
    } else {
        1 + cases_size(v.drop_last()) + case_size(v.last())
    }
}

/// Size of a catch clause.
pub open spec fn catch_size(c: CatchV) -> nat
    decreases c,
{
    2 + stmt_size(*c.body)
}

/// Size of a list of catch clauses.
pub open spec fn catches_size(v: Seq<CatchV>) -> nat
    decreases v,
{
    if v.len() == 0 {
        0
    } else {
        1 + catches_size(v.drop_last()) + catch_size(v.last())
    }
}

/// A statement of a list is smaller than the list.
pub proof fn lemma_stmts_size(v: Seq<StmtV>, i: int)
    requires
        0 <= i < v.len(),
    ensures
        stmt_size(v[i]) < stmts_size(v),
    decreases v.len(),
{
    if i < v.len() - 1 {
        lemma_stmts_size(v.drop_last(), i);
        assert(v.drop_last()[i] == v[i]);
    }
}

/// An arm of a list is smaller than the list.
pub proof fn lemma_cases_size(v: Seq<CaseGroupV>, i: int)
    requires
        0 <= i < v.len(),
    ensures
        case_size(v[i]) < cases_size(v),
    decreases v.len(),
{
    if i < v.len() - 1 {
        lemma_cases_size(v.drop_last(), i);
        assert(v.drop_last()[i] == v[i]);
    }
}

/// A clause of a list is smaller than the list.
pub proof fn lemma_catches_size(v: Seq<CatchV>, i: int)
    requires
        0 <= i < v.len(),
    ensures
        catch_size(v[i]) < catches_size(v),
    decreases v.len(),
{
    if i < v.len() - 1 {
        lemma_catches_size(v.drop_last(), i);
        assert(v.drop_last()[i] == v[i]);
    }
}

/// The size of a list with its first statement changed.
pub proof fn lemma_stmts_size_first(v: Seq<StmtV>)
    requires
        v.len() > 0,
    ensures
        stmts_size(v) == 1 + stmt_size(v[0]) + stmts_size(v.skip(1)),
    decreases v.len(),
{
    if v.len() == 1 {
        assert(v.drop_last() =~= seq![]);
        assert(v.skip(1) =~= seq![]);
    } else {
        lemma_stmts_size_first(v.drop_last());
        assert(v.drop_last().skip(1) =~= v.skip(1).drop_last());
    }
}

} // verus!
