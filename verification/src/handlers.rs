//! What holds of handlers once they are put in order.
use crate::catches::{
    catchall_fixed, catchall_fixed_case, catchall_fixed_cases, catchall_fixed_catch,
    catchall_fixed_catches, catchall_fixed_opt, catchall_fixed_seq,
};
use crate::stmt::{is_empty_block, CaseGroupV, CatchV, StmtV};
use vstd::prelude::*;

verus! {

/// A clause that catches everything in a variable does nothing, somewhere in `s`.
pub open spec fn swallows(s: StmtV) -> bool
    decreases s,
{
    match s {
        StmtV::Block(items) => swallows_seq(items),
        StmtV::If { then_stmt, else_stmt, .. } => swallows(*then_stmt) || swallows_opt(else_stmt),
        StmtV::While { body, .. } => swallows(*body),
        StmtV::DoWhile { body, .. } => swallows(*body),
        StmtV::For { init, body, .. } => swallows_seq(init) || swallows(*body),
        StmtV::ForEach { body, .. } => swallows(*body),
        StmtV::Switch { cases, default, .. } => swallows_cases(cases) || swallows_opt(default),
        StmtV::Try { body, catches, finally } => swallows(*body) || swallows_catches(catches)
            || swallows_opt(finally),
        StmtV::TryWithResources { resources, body, catches, finally } => swallows_seq(resources)
            || swallows(*body) || swallows_catches(catches) || swallows_opt(finally),
        StmtV::Synchronized { body, .. } => swallows(*body),
        StmtV::Labeled { body, .. } => swallows(*body),
        _ => false,
    }
}

/// [`swallows`] where there is a value.
pub open spec fn swallows_opt(o: Option<Box<StmtV>>) -> bool
    decreases o,
{
    match o {
        Some(x) => swallows(*x),
        None => false,
    }
}

/// [`swallows`] over a list.
pub open spec fn swallows_seq(l: Seq<StmtV>) -> bool
    decreases l,
{
    exists|i: int| 0 <= i < l.len() && swallows(#[trigger] l[i])
}

/// [`swallows`] inside a switch arm.
pub open spec fn swallows_case(c: CaseGroupV) -> bool
    decreases c,
{
    swallows_seq(c.body)
}

/// [`swallows`] over a list.
pub open spec fn swallows_cases(l: Seq<CaseGroupV>) -> bool
    decreases l,
{
    exists|i: int| 0 <= i < l.len() && swallows_case(#[trigger] l[i])
}

/// [`swallows`] inside a catch clause.
pub open spec fn swallows_catch(c: CatchV) -> bool
    decreases c,
{
    (c.exc.len() == 0 && c.var != u32::MAX && is_empty_block(*c.body)) || swallows(*c.body)
}

/// [`swallows`] over a list.
pub open spec fn swallows_catches(l: Seq<CatchV>) -> bool
    decreases l,
{
    exists|i: int| 0 <= i < l.len() && swallows_catch(#[trigger] l[i])
}

/// Once empty catch-all clauses are fixed, none swallows what it caught.
pub proof fn law_nothing_swallowed(s: StmtV)
    ensures
        !swallows(catchall_fixed(s)),
    decreases s,
{
    match s {
        StmtV::Block(items) => { lemma_nothing_swallowed_seq(items);  },
        StmtV::If { then_stmt, else_stmt, .. } => {
            law_nothing_swallowed(*then_stmt);
            lemma_nothing_swallowed_opt(else_stmt);
        },
        StmtV::While { body, .. } => { law_nothing_swallowed(*body);  },
        StmtV::DoWhile { body, .. } => { law_nothing_swallowed(*body);  },
        StmtV::For { init, body, .. } => {
            lemma_nothing_swallowed_seq(init);
            law_nothing_swallowed(*body);
        },
        StmtV::ForEach { body, .. } => { law_nothing_swallowed(*body);  },
        StmtV::Switch { cases, default, .. } => {
            lemma_nothing_swallowed_cases(cases);
            lemma_nothing_swallowed_opt(default);
        },
        StmtV::Try { body, catches, finally } => {
            law_nothing_swallowed(*body);
            lemma_nothing_swallowed_catches(catches);
            lemma_nothing_swallowed_opt(finally);
        },
        StmtV::TryWithResources { resources, body, catches, finally } => {
            lemma_nothing_swallowed_seq(resources);
            law_nothing_swallowed(*body);
            lemma_nothing_swallowed_catches(catches);
            lemma_nothing_swallowed_opt(finally);
        },
        StmtV::Synchronized { body, .. } => { law_nothing_swallowed(*body);  },
        StmtV::Labeled { body, .. } => { law_nothing_swallowed(*body);  },
        _ => {},
    }
}

/// [`law_nothing_swallowed`] where there is a statement.
proof fn lemma_nothing_swallowed_opt(o: Option<Box<StmtV>>)
    ensures
        !swallows_opt(catchall_fixed_opt(o)),
    decreases o,
{
    if let Some(x) = o {
        law_nothing_swallowed(*x);
    }
}

/// [`law_nothing_swallowed`] over a list.
proof fn lemma_nothing_swallowed_seq(v: Seq<StmtV>)
    ensures
        !swallows_seq(catchall_fixed_seq(v)),
    decreases v,
{
    assert forall|i: int|
        0 <= i < v.len() implies !swallows(#[trigger] catchall_fixed_seq(v)[i]) by {
        law_nothing_swallowed(v[i]);
    }
}

/// [`law_nothing_swallowed`] over switch arms.
proof fn lemma_nothing_swallowed_cases(v: Seq<CaseGroupV>)
    ensures
        !swallows_cases(catchall_fixed_cases(v)),
    decreases v,
{
    assert forall|i: int|
        0 <= i < v.len() implies !swallows_case(#[trigger] catchall_fixed_cases(v)[i]) by {
        lemma_nothing_swallowed_case(v[i]);
    }
}

/// [`law_nothing_swallowed`] inside a switch arm.
proof fn lemma_nothing_swallowed_case(c: CaseGroupV)
    ensures
        !swallows_case(catchall_fixed_case(c)),
    decreases c,
{
    lemma_nothing_swallowed_seq(c.body);
}

/// [`law_nothing_swallowed`] over catch clauses.
proof fn lemma_nothing_swallowed_catches(v: Seq<CatchV>)
    ensures
        !swallows_catches(catchall_fixed_catches(v)),
    decreases v,
{
    assert forall|i: int|
        0 <= i < v.len() implies !swallows_catch(#[trigger] catchall_fixed_catches(v)[i]) by {
        lemma_nothing_swallowed_catch(v[i]);
    }
}

/// [`law_nothing_swallowed`] inside a catch clause.
proof fn lemma_nothing_swallowed_catch(c: CatchV)
    ensures
        !swallows_catch(catchall_fixed_catch(c)),
    decreases c,
{
    law_nothing_swallowed(*c.body);
}

} // verus!
