//! What holds of bodies once unreachable statements are gone.
use crate::stmt::{CaseGroupV, CatchV, StmtV};
use crate::termination::{
    cut, lemma_first_end, terminates, unreachable_pruned, unreachable_pruned_case,
    unreachable_pruned_cases, unreachable_pruned_catch, unreachable_pruned_catches,
    unreachable_pruned_opt, unreachable_pruned_seq,
};
use vstd::prelude::*;

verus! {

/// A statement stands after one that terminates.
pub open spec fn has_dead_tail(v: Seq<StmtV>) -> bool {
    exists|i: int| 0 <= i < v.len() - 1 && terminates(#[trigger] v[i])
}

/// A block or switch arm holds a statement after one that terminates, somewhere in
/// `s`.
pub open spec fn stranded(s: StmtV) -> bool
    decreases s,
{
    match s {
        StmtV::Block(items) => has_dead_tail(items) || stranded_seq(items),
        StmtV::If { then_stmt, else_stmt, .. } => stranded(*then_stmt) || stranded_opt(else_stmt),
        StmtV::While { body, .. } => stranded(*body),
        StmtV::DoWhile { body, .. } => stranded(*body),
        StmtV::For { init, body, .. } => stranded_seq(init) || stranded(*body),
        StmtV::ForEach { body, .. } => stranded(*body),
        StmtV::Switch { cases, default, .. } => stranded_cases(cases) || stranded_opt(default),
        StmtV::Try { body, catches, finally } => stranded(*body) || stranded_catches(catches)
            || stranded_opt(finally),
        StmtV::TryWithResources { resources, body, catches, finally } => stranded_seq(resources)
            || stranded(*body) || stranded_catches(catches) || stranded_opt(finally),
        StmtV::Synchronized { body, .. } => stranded(*body),
        StmtV::Labeled { body, .. } => stranded(*body),
        _ => false,
    }
}

/// [`stranded`] where there is a value.
pub open spec fn stranded_opt(o: Option<Box<StmtV>>) -> bool
    decreases o,
{
    match o {
        Some(x) => stranded(*x),
        None => false,
    }
}

/// [`stranded`] over a list.
pub open spec fn stranded_seq(l: Seq<StmtV>) -> bool
    decreases l,
{
    exists|i: int| 0 <= i < l.len() && stranded(#[trigger] l[i])
}

/// [`stranded`] inside a switch arm.
pub open spec fn stranded_case(c: CaseGroupV) -> bool
    decreases c,
{
    has_dead_tail(c.body) || stranded_seq(c.body)
}

/// [`stranded`] over a list.
pub open spec fn stranded_cases(l: Seq<CaseGroupV>) -> bool
    decreases l,
{
    exists|i: int| 0 <= i < l.len() && stranded_case(#[trigger] l[i])
}

/// [`stranded`] inside a catch clause.
pub open spec fn stranded_catch(c: CatchV) -> bool
    decreases c,
{
    stranded(*c.body)
}

/// [`stranded`] over a list.
pub open spec fn stranded_catches(l: Seq<CatchV>) -> bool
    decreases l,
{
    exists|i: int| 0 <= i < l.len() && stranded_catch(#[trigger] l[i])
}

/// The front of a list holds nothing that the list does not.
proof fn lemma_front(w: Seq<StmtV>, n: int)
    requires
        0 <= n <= w.len(),
        !stranded_seq(w),
    ensures
        !stranded_seq(w.take(n)),
{
    assert forall|i: int| 0 <= i < n implies !stranded(#[trigger] w.take(n)[i]) by {
        assert(!stranded(w[i]));
    }
}

/// A list that is cut after its first statement that terminates.
proof fn lemma_kept(w: Seq<StmtV>)
    requires
        !stranded_seq(w),
    ensures
        !has_dead_tail(cut(w)),
        !stranded_seq(cut(w)),
{
    lemma_first_end(w);
    let n = cut(w).len() as int;
    assert(cut(w) =~= w.take(n));
    lemma_front(w, n);
    assert forall|i: int| 0 <= i < n - 1 implies !terminates(#[trigger] cut(w)[i]) by {
        assert(cut(w)[i] == w[i]);
    }
    assert(!has_dead_tail(cut(w)));
}

/// Once unreachable statements are gone, no block and no switch arm holds a statement
/// after one that terminates.
pub proof fn law_nothing_stranded(s: StmtV)
    ensures
        !stranded(unreachable_pruned(s)),
    decreases s,
{
    match s {
        StmtV::Block(items) => {
            lemma_nothing_stranded_seq(items);
            lemma_kept(unreachable_pruned_seq(items));
        },
        StmtV::If { then_stmt, else_stmt, .. } => {
            law_nothing_stranded(*then_stmt);
            lemma_nothing_stranded_opt(else_stmt);
        },
        StmtV::While { body, .. } => { law_nothing_stranded(*body);  },
        StmtV::DoWhile { body, .. } => { law_nothing_stranded(*body);  },
        StmtV::For { init, body, .. } => {
            lemma_nothing_stranded_seq(init);
            law_nothing_stranded(*body);
        },
        StmtV::ForEach { body, .. } => { law_nothing_stranded(*body);  },
        StmtV::Switch { cases, default, .. } => {
            lemma_nothing_stranded_cases(cases);
            lemma_nothing_stranded_opt(default);
        },
        StmtV::Try { body, catches, finally } => {
            law_nothing_stranded(*body);
            lemma_nothing_stranded_catches(catches);
            lemma_nothing_stranded_opt(finally);
        },
        StmtV::TryWithResources { resources, body, catches, finally } => {
            lemma_nothing_stranded_seq(resources);
            law_nothing_stranded(*body);
            lemma_nothing_stranded_catches(catches);
            lemma_nothing_stranded_opt(finally);
        },
        StmtV::Synchronized { body, .. } => { law_nothing_stranded(*body);  },
        StmtV::Labeled { body, .. } => { law_nothing_stranded(*body);  },
        _ => {},
    }
}

/// [`law_nothing_stranded`] where there is a statement.
proof fn lemma_nothing_stranded_opt(o: Option<Box<StmtV>>)
    ensures
        !stranded_opt(unreachable_pruned_opt(o)),
    decreases o,
{
    if let Some(x) = o {
        law_nothing_stranded(*x);
    }
}

/// [`law_nothing_stranded`] over a list.
proof fn lemma_nothing_stranded_seq(v: Seq<StmtV>)
    ensures
        !stranded_seq(unreachable_pruned_seq(v)),
    decreases v,
{
    assert forall|i: int|
        0 <= i < v.len() implies !stranded(#[trigger] unreachable_pruned_seq(v)[i]) by {
        law_nothing_stranded(v[i]);
    }
}

/// [`law_nothing_stranded`] over switch arms.
proof fn lemma_nothing_stranded_cases(v: Seq<CaseGroupV>)
    ensures
        !stranded_cases(unreachable_pruned_cases(v)),
    decreases v,
{
    assert forall|i: int|
        0 <= i < v.len() implies !stranded_case(#[trigger] unreachable_pruned_cases(v)[i]) by {
        lemma_nothing_stranded_case(v[i]);
    }
}

/// [`law_nothing_stranded`] inside a switch arm.
proof fn lemma_nothing_stranded_case(c: CaseGroupV)
    ensures
        !stranded_case(unreachable_pruned_case(c)),
    decreases c,
{
    lemma_nothing_stranded_seq(c.body);
    lemma_kept(unreachable_pruned_seq(c.body));
}

/// [`law_nothing_stranded`] over catch clauses.
proof fn lemma_nothing_stranded_catches(v: Seq<CatchV>)
    ensures
        !stranded_catches(unreachable_pruned_catches(v)),
    decreases v,
{
    assert forall|i: int|
        0 <= i < v.len() implies !stranded_catch(#[trigger] unreachable_pruned_catches(v)[i]) by {
        lemma_nothing_stranded_catch(v[i]);
    }
}

/// [`law_nothing_stranded`] inside a catch clause.
proof fn lemma_nothing_stranded_catch(c: CatchV)
    ensures
        !stranded_catch(unreachable_pruned_catch(c)),
    decreases c,
{
    law_nothing_stranded(*c.body);
}

} // verus!
