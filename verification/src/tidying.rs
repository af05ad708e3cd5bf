//! What cleanup keeps.
use crate::cleanup::{
    cleaned, cleaned_case, cleaned_cases, cleaned_catch, cleaned_catches, cleaned_opt, cleaned_seq,
    flat, flat_one, nonempty,
};
use crate::stmt::{is_empty_block, CaseGroupV, CatchV, StmtV};
use crate::uses::{
    declares, declares_case, declares_cases, declares_catch, declares_catches, declares_opt,
    declares_seq, stmt_uses, stmt_uses_case, stmt_uses_cases, stmt_uses_catch, stmt_uses_catches,
    stmt_uses_opt, stmt_uses_seq,
};
use vstd::prelude::*;

verus! {

/// What stands in two lists stands in one of them.
proof fn lemma_stmt_uses_joined(a: Seq<StmtV>, b: Seq<StmtV>, v: u32)
    ensures
        stmt_uses_seq(a + b, v) == (stmt_uses_seq(a, v) || stmt_uses_seq(b, v)),
{
    if stmt_uses_seq(a, v) {
        let i = choose|i: int| 0 <= i < a.len() && stmt_uses(#[trigger] a[i], v);
        assert((a + b)[i] == a[i]);
    }
    if stmt_uses_seq(b, v) {
        let i = choose|i: int| 0 <= i < b.len() && stmt_uses(#[trigger] b[i], v);
        assert((a + b)[a.len() + i] == b[i]);
    }
    if stmt_uses_seq(a + b, v) {
        let i = choose|i: int| 0 <= i < (a + b).len() && stmt_uses(#[trigger] (a + b)[i], v);
        if i < a.len() {
            assert(stmt_uses(a[i], v));
        } else {
            assert(stmt_uses(b[i - a.len()], v));
        }
    }
}

/// What stands in a list of one stands in that one.
proof fn lemma_stmt_uses_one(s: StmtV, v: u32)
    ensures
        stmt_uses_seq(seq![s], v) == stmt_uses(s, v),
        !stmt_uses_seq(seq![], v),
{
    if stmt_uses(s, v) {
        assert(seq![s][0] == s);
    }
}

/// Flattening loses nothing.
proof fn lemma_stmt_uses_flat(l: Seq<StmtV>, v: u32)
    ensures
        stmt_uses_seq(flat(l), v) == stmt_uses_seq(l, v),
    decreases l.len(),
{
    if l.len() > 0 {
        lemma_stmt_uses_flat(l.drop_last(), v);
        lemma_stmt_uses_one(l.last(), v);
        assert(l =~= l.drop_last() + seq![l.last()]);
        lemma_stmt_uses_joined(l.drop_last(), seq![l.last()], v);
        match l.last() {
            StmtV::Block(inner) => {
                lemma_stmt_uses_joined(flat(l.drop_last()), inner, v);
            },
            _ => {
                lemma_stmt_uses_joined(flat(l.drop_last()), seq![l.last()], v);
            },
        }
    } else {
        assert(flat(l) =~= l);
    }
}

/// Dropping empty blocks loses nothing.
proof fn lemma_stmt_uses_nonempty(l: Seq<StmtV>, v: u32)
    ensures
        stmt_uses_seq(nonempty(l), v) == stmt_uses_seq(l, v),
    decreases l.len(),
{
    if l.len() > 0 {
        lemma_stmt_uses_nonempty(l.drop_last(), v);
        lemma_stmt_uses_one(l.last(), v);
        assert(l =~= l.drop_last() + seq![l.last()]);
        lemma_stmt_uses_joined(l.drop_last(), seq![l.last()], v);
        if is_empty_block(l.last()) {
            if let StmtV::Block(inner) = l.last() {
                assert(inner =~= seq![]);
                assert(stmt_uses(l.last(), v) == stmt_uses_seq(inner, v));
            }
            assert(nonempty(l) =~= nonempty(l.drop_last()));
        } else {
            lemma_stmt_uses_joined(nonempty(l.drop_last()), seq![l.last()], v);
        }
    } else {
        assert(nonempty(l) =~= l);
    }
}

/// What stands in two lists stands in one of them.
proof fn lemma_declares_joined(a: Seq<StmtV>, b: Seq<StmtV>, v: u32)
    ensures
        declares_seq(a + b, v) == (declares_seq(a, v) || declares_seq(b, v)),
{
    if declares_seq(a, v) {
        let i = choose|i: int| 0 <= i < a.len() && declares(#[trigger] a[i], v);
        assert((a + b)[i] == a[i]);
    }
    if declares_seq(b, v) {
        let i = choose|i: int| 0 <= i < b.len() && declares(#[trigger] b[i], v);
        assert((a + b)[a.len() + i] == b[i]);
    }
    if declares_seq(a + b, v) {
        let i = choose|i: int| 0 <= i < (a + b).len() && declares(#[trigger] (a + b)[i], v);
        if i < a.len() {
            assert(declares(a[i], v));
        } else {
            assert(declares(b[i - a.len()], v));
        }
    }
}

/// What stands in a list of one stands in that one.
proof fn lemma_declares_one(s: StmtV, v: u32)
    ensures
        declares_seq(seq![s], v) == declares(s, v),
        !declares_seq(seq![], v),
{
    if declares(s, v) {
        assert(seq![s][0] == s);
    }
}

/// Flattening loses nothing.
proof fn lemma_declares_flat(l: Seq<StmtV>, v: u32)
    ensures
        declares_seq(flat(l), v) == declares_seq(l, v),
    decreases l.len(),
{
    if l.len() > 0 {
        lemma_declares_flat(l.drop_last(), v);
        lemma_declares_one(l.last(), v);
        assert(l =~= l.drop_last() + seq![l.last()]);
        lemma_declares_joined(l.drop_last(), seq![l.last()], v);
        match l.last() {
            StmtV::Block(inner) => {
                lemma_declares_joined(flat(l.drop_last()), inner, v);
            },
            _ => {
                lemma_declares_joined(flat(l.drop_last()), seq![l.last()], v);
            },
        }
    } else {
        assert(flat(l) =~= l);
    }
}

/// Dropping empty blocks loses nothing.
proof fn lemma_declares_nonempty(l: Seq<StmtV>, v: u32)
    ensures
        declares_seq(nonempty(l), v) == declares_seq(l, v),
    decreases l.len(),
{
    if l.len() > 0 {
        lemma_declares_nonempty(l.drop_last(), v);
        lemma_declares_one(l.last(), v);
        assert(l =~= l.drop_last() + seq![l.last()]);
        lemma_declares_joined(l.drop_last(), seq![l.last()], v);
        if is_empty_block(l.last()) {
            if let StmtV::Block(inner) = l.last() {
                assert(inner =~= seq![]);
                assert(declares(l.last(), v) == declares_seq(inner, v));
            }
            assert(nonempty(l) =~= nonempty(l.drop_last()));
        } else {
            lemma_declares_joined(nonempty(l.drop_last()), seq![l.last()], v);
        }
    } else {
        assert(nonempty(l) =~= l);
    }
}

/// Cleanup neither loses nor adds a use or a declaration of a variable.
pub proof fn law_cleanup_keeps_variables(s: StmtV, v: u32)
    ensures
        stmt_uses(cleaned(s), v) == stmt_uses(s, v),
        declares(cleaned(s), v) == declares(s, v),
    decreases s,
{
    match s {
        StmtV::Block(items) => {
            lemma_kept_seq(items, v);
            let a = cleaned_seq(items);
            lemma_stmt_uses_flat(a, v);
            lemma_declares_flat(a, v);
            lemma_stmt_uses_nonempty(flat(a), v);
            lemma_declares_nonempty(flat(a), v);
            let w = nonempty(flat(a));
            if w.len() == 1 {
                assert(w =~= seq![w[0]]);
                lemma_stmt_uses_one(w[0], v);
                lemma_declares_one(w[0], v);
            }
        },
        StmtV::Try { body, catches, finally } => {
            law_cleanup_keeps_variables(*body, v);
            lemma_kept_catches(catches, v);
            lemma_kept_opt(finally, v);
        },
        StmtV::If { then_stmt, else_stmt, .. } => {
            law_cleanup_keeps_variables(*then_stmt, v);
            lemma_kept_opt(else_stmt, v);
        },
        StmtV::While { body, .. } => {
            law_cleanup_keeps_variables(*body, v);
        },
        StmtV::DoWhile { body, .. } => {
            law_cleanup_keeps_variables(*body, v);
        },
        StmtV::For { init, body, .. } => {
            lemma_kept_seq(init, v);
            law_cleanup_keeps_variables(*body, v);
        },
        StmtV::ForEach { body, .. } => {
            law_cleanup_keeps_variables(*body, v);
        },
        StmtV::Switch { cases, default, .. } => {
            lemma_kept_cases(cases, v);
            lemma_kept_opt(default, v);
        },
        StmtV::TryWithResources { resources, body, catches, finally } => {
            lemma_kept_seq(resources, v);
            law_cleanup_keeps_variables(*body, v);
            lemma_kept_catches(catches, v);
            lemma_kept_opt(finally, v);
        },
        StmtV::Synchronized { body, .. } => {
            law_cleanup_keeps_variables(*body, v);
        },
        StmtV::Labeled { body, .. } => {
            law_cleanup_keeps_variables(*body, v);
        },
        _ => {},
    }
}

/// [`law_cleanup_keeps_variables`] where there is a statement.
proof fn lemma_kept_opt(o: Option<Box<StmtV>>, v: u32)
    ensures
        stmt_uses_opt(cleaned_opt(o), v) == stmt_uses_opt(o, v),
        declares_opt(cleaned_opt(o), v) == declares_opt(o, v),
    decreases o,
{
    if let Some(x) = o {
        law_cleanup_keeps_variables(*x, v);
    }
}

/// [`law_cleanup_keeps_variables`] over a list.
proof fn lemma_kept_seq(l: Seq<StmtV>, v: u32)
    ensures
        stmt_uses_seq(cleaned_seq(l), v) == stmt_uses_seq(l, v),
        declares_seq(cleaned_seq(l), v) == declares_seq(l, v),
    decreases l,
{
    let w = cleaned_seq(l);
    assert forall|i: int|
        0 <= i < l.len() implies stmt_uses(#[trigger] l[i], v) == stmt_uses(w[i], v)
        && declares(l[i], v) == declares(w[i], v) by {
        law_cleanup_keeps_variables(l[i], v);
        assert(w[i] == cleaned(l[i]));
    }
    assert forall|i: int|
        0 <= i < w.len() implies stmt_uses(#[trigger] w[i], v) == stmt_uses(l[i], v)
        && declares(w[i], v) == declares(l[i], v) by {
        assert(l[i] == l[i]);
    }
}

/// [`law_cleanup_keeps_variables`] over switch arms.
proof fn lemma_kept_cases(l: Seq<CaseGroupV>, v: u32)
    ensures
        stmt_uses_cases(cleaned_cases(l), v) == stmt_uses_cases(l, v),
        declares_cases(cleaned_cases(l), v) == declares_cases(l, v),
    decreases l,
{
    let w = cleaned_cases(l);
    assert forall|i: int|
        0 <= i < l.len() implies stmt_uses_case(#[trigger] l[i], v) == stmt_uses_case(w[i], v)
        && declares_case(l[i], v) == declares_case(w[i], v) by {
        lemma_kept_case(l[i], v);
        assert(w[i] == cleaned_case(l[i]));
    }
    assert forall|i: int|
        0 <= i < w.len() implies stmt_uses_case(#[trigger] w[i], v) == stmt_uses_case(l[i], v)
        && declares_case(w[i], v) == declares_case(l[i], v) by {
        assert(l[i] == l[i]);
    }
}

/// [`law_cleanup_keeps_variables`] over catch clauses.
proof fn lemma_kept_catches(l: Seq<CatchV>, v: u32)
    ensures
        stmt_uses_catches(cleaned_catches(l), v) == stmt_uses_catches(l, v),
        declares_catches(cleaned_catches(l), v) == declares_catches(l, v),
    decreases l,
{
    let w = cleaned_catches(l);
    assert forall|i: int|
        0 <= i < l.len() implies stmt_uses_catch(#[trigger] l[i], v) == stmt_uses_catch(w[i], v)
        && declares_catch(l[i], v) == declares_catch(w[i], v) by {
        lemma_kept_catch(l[i], v);
        assert(w[i] == cleaned_catch(l[i]));
    }
    assert forall|i: int|
        0 <= i < w.len() implies stmt_uses_catch(#[trigger] w[i], v) == stmt_uses_catch(l[i], v)
        && declares_catch(w[i], v) == declares_catch(l[i], v) by {
        assert(l[i] == l[i]);
    }
}

/// [`law_cleanup_keeps_variables`] inside a switch arm.
proof fn lemma_kept_case(c: CaseGroupV, v: u32)
    ensures
        stmt_uses_case(cleaned_case(c), v) == stmt_uses_case(c, v),
        declares_case(cleaned_case(c), v) == declares_case(c, v),
    decreases c,
{
    lemma_kept_seq(c.body, v);
}

/// [`law_cleanup_keeps_variables`] inside a catch clause.
proof fn lemma_kept_catch(c: CatchV, v: u32)
    ensures
        stmt_uses_catch(cleaned_catch(c), v) == stmt_uses_catch(c, v),
        declares_catch(cleaned_catch(c), v) == declares_catch(c, v),
    decreases c,
{
    law_cleanup_keeps_variables(*c.body, v);
}

// ---------------------------------------------------------------------
// Order.

/// What `s` stands for: its statements in order, none of them a block or a `try` that
/// catches nothing, and each with its parts in the same form.
pub open spec fn steps(s: StmtV) -> Seq<StmtV>
    decreases s,
{
    match s {
        StmtV::Block(v) => steps_seq(v),
        StmtV::If { cond, then_stmt, else_stmt } => seq![
            StmtV::If {
                cond,
                then_stmt: Box::new(StmtV::Block(steps(*then_stmt))),
                else_stmt: steps_opt(else_stmt),
            },
        ],
        StmtV::While { cond, body } => seq![
            StmtV::While { cond, body: Box::new(StmtV::Block(steps(*body))) },
        ],
        StmtV::DoWhile { body, cond } => seq![
            StmtV::DoWhile { body: Box::new(StmtV::Block(steps(*body))), cond },
        ],
        StmtV::For { init, cond, update, body } => seq![
            StmtV::For {
                init: steps_seq(init),
                cond,
                update,
                body: Box::new(StmtV::Block(steps(*body))),
            },
        ],
        StmtV::ForEach { var, iterable, is_array, body } => seq![
            StmtV::ForEach {
                var,
                iterable,
                is_array,
                body: Box::new(StmtV::Block(steps(*body))),
            },
        ],
        StmtV::Switch { selector, cases, default, on_string } => seq![
            StmtV::Switch {
                selector,
                cases: steps_cases(cases),
                default: steps_opt(default),
                on_string,
            },
        ],
        StmtV::Try { body, catches, finally } => if catches.len() == 0 && finally is None {
            steps(*body)
        } else {
            seq![
                StmtV::Try {
                    body: Box::new(StmtV::Block(steps(*body))),
                    catches: steps_catches(catches),
                    finally: steps_opt(finally),
                },
            ]
        },
        StmtV::TryWithResources { resources, body, catches, finally } => seq![
            StmtV::TryWithResources {
                resources: steps_seq(resources),
                body: Box::new(StmtV::Block(steps(*body))),
                catches: steps_catches(catches),
                finally: steps_opt(finally),
            },
        ],
        StmtV::Synchronized { lock, body } => seq![
            StmtV::Synchronized { lock, body: Box::new(StmtV::Block(steps(*body))) },
        ],
        StmtV::Labeled { label, body } => seq![
            StmtV::Labeled { label, body: Box::new(StmtV::Block(steps(*body))) },
        ],
        _ => seq![s],
    }
}

/// [`steps`] where there is a statement.
pub open spec fn steps_opt(o: Option<Box<StmtV>>) -> Option<Box<StmtV>>
    decreases o,
{
    match o {
        Some(x) => Some(Box::new(StmtV::Block(steps(*x)))),
        None => None,
    }
}

/// [`steps`] of the statements of a list, one after the other.
pub open spec fn steps_seq(v: Seq<StmtV>) -> Seq<StmtV>
    decreases v,
{
    if v.len() == 0 {
        seq![]
    } else {
        steps_seq(v.drop_last()) + steps(v.last())
    }
}

/// [`steps`] inside a switch arm.
pub open spec fn steps_case(c: CaseGroupV) -> CaseGroupV
    decreases c,
{
    CaseGroupV { body: steps_seq(c.body), ..c }
}

/// [`steps`] inside each switch arm.
pub open spec fn steps_cases(v: Seq<CaseGroupV>) -> Seq<CaseGroupV>
    decreases v,
{
    Seq::new(v.len(), |i: int| if 0 <= i < v.len() { steps_case(v[i]) } else { arbitrary() })
}

/// [`steps`] inside a catch clause.
pub open spec fn steps_catch(c: CatchV) -> CatchV
    decreases c,
{
    CatchV { body: Box::new(StmtV::Block(steps(*c.body))), ..c }
}

/// [`steps`] inside each catch clause.
pub open spec fn steps_catches(v: Seq<CatchV>) -> Seq<CatchV>
    decreases v,
{
    Seq::new(v.len(), |i: int| if 0 <= i < v.len() { steps_catch(v[i]) } else { arbitrary() })
}

/// The steps of two lists follow each other.
proof fn lemma_steps_joined(a: Seq<StmtV>, b: Seq<StmtV>)
    ensures
        steps_seq(a + b) == steps_seq(a) + steps_seq(b),
    decreases b.len(),
{
    if b.len() == 0 {
        assert(a + b =~= a);
        assert(steps_seq(a) + steps_seq(b) =~= steps_seq(a));
    } else {
        assert((a + b).drop_last() =~= a + b.drop_last());
        lemma_steps_joined(a, b.drop_last());
        assert(steps_seq(a + b) =~= steps_seq(a) + steps_seq(b));
    }
}

/// The steps of a list of one statement are its own.
proof fn lemma_steps_one(s: StmtV)
    ensures
        steps_seq(seq![s]) == steps(s),
{
    assert(seq![s].drop_last() =~= seq![]);
    assert(steps_seq(seq![]) =~= seq![]);
    assert(seq![s].last() == s);
    assert(steps_seq(seq![s]) =~= steps(s));
}

/// Flattening keeps the steps of a list.
proof fn lemma_steps_flat(v: Seq<StmtV>)
    ensures
        steps_seq(flat(v)) == steps_seq(v),
    decreases v.len(),
{
    if v.len() > 0 {
        lemma_steps_flat(v.drop_last());
        lemma_steps_joined(flat(v.drop_last()), flat_one(v.last()));
        match v.last() {
            StmtV::Block(inner) => {
                assert(steps(v.last()) == steps_seq(inner));
            },
            _ => {
                lemma_steps_one(v.last());
            },
        }
        assert(steps_seq(flat_one(v.last())) == steps(v.last()));
    } else {
        assert(flat(v) =~= v);
    }
}

/// Dropping empty blocks keeps the steps of a list.
proof fn lemma_steps_nonempty(v: Seq<StmtV>)
    ensures
        steps_seq(nonempty(v)) == steps_seq(v),
    decreases v.len(),
{
    if v.len() > 0 {
        lemma_steps_nonempty(v.drop_last());
        if is_empty_block(v.last()) {
            assert(nonempty(v) =~= nonempty(v.drop_last()));
            if let StmtV::Block(w) = v.last() {
                assert(steps_seq(w) =~= seq![]);
            }
            assert(steps(v.last()) =~= seq![]);
            assert(steps_seq(v) =~= steps_seq(v.drop_last()));
        } else {
            lemma_steps_joined(nonempty(v.drop_last()), seq![v.last()]);
            lemma_steps_one(v.last());
        }
    }
}

/// Cleanup keeps the statements other than blocks in their order, and of each one all
/// that it holds: what a statement stands for is the same before and after.
pub proof fn law_cleanup_keeps_order(s: StmtV)
    ensures
        steps(cleaned(s)) == steps(s),
    decreases s,
{
    match s {
        StmtV::Block(items) => {
            lemma_order_seq(items);
            let a = cleaned_seq(items);
            lemma_steps_flat(a);
            lemma_steps_nonempty(flat(a));
            let w = nonempty(flat(a));
            if w.len() == 1 {
                assert(w =~= seq![w[0]]);
                lemma_steps_one(w[0]);
            }
        },
        StmtV::Try { body, catches, finally } => {
            law_cleanup_keeps_order(*body);
            lemma_order_catches(catches);
            lemma_order_opt(finally);
        },
        StmtV::If { then_stmt, else_stmt, .. } => {
            law_cleanup_keeps_order(*then_stmt);
            lemma_order_opt(else_stmt);
        },
        StmtV::While { body, .. } => {
            law_cleanup_keeps_order(*body);
        },
        StmtV::DoWhile { body, .. } => {
            law_cleanup_keeps_order(*body);
        },
        StmtV::For { init, body, .. } => {
            lemma_order_seq(init);
            law_cleanup_keeps_order(*body);
        },
        StmtV::ForEach { body, .. } => {
            law_cleanup_keeps_order(*body);
        },
        StmtV::Switch { cases, default, .. } => {
            lemma_order_cases(cases);
            lemma_order_opt(default);
        },
        StmtV::TryWithResources { resources, body, catches, finally } => {
            lemma_order_seq(resources);
            law_cleanup_keeps_order(*body);
            lemma_order_catches(catches);
            lemma_order_opt(finally);
        },
        StmtV::Synchronized { body, .. } => {
            law_cleanup_keeps_order(*body);
        },
        StmtV::Labeled { body, .. } => {
            law_cleanup_keeps_order(*body);
        },
        _ => {},
    }
}

/// [`law_cleanup_keeps_order`] where there is a statement.
proof fn lemma_order_opt(o: Option<Box<StmtV>>)
    ensures
        steps_opt(cleaned_opt(o)) == steps_opt(o),
    decreases o,
{
    if let Some(x) = o {
        law_cleanup_keeps_order(*x);
    }
}

/// [`law_cleanup_keeps_order`] over a list.
proof fn lemma_order_seq(l: Seq<StmtV>)
    ensures
        steps_seq(cleaned_seq(l)) == steps_seq(l),
    decreases l,
{
    if l.len() > 0 {
        law_cleanup_keeps_order(l.last());
        lemma_order_seq(l.drop_last());
        assert(cleaned_seq(l).drop_last() =~= cleaned_seq(l.drop_last()));
        assert(cleaned_seq(l).last() == cleaned(l.last()));
    } else {
        assert(cleaned_seq(l) =~= l);
    }
}

/// [`law_cleanup_keeps_order`] inside each switch arm.
proof fn lemma_order_cases(l: Seq<CaseGroupV>)
    ensures
        steps_cases(cleaned_cases(l)) == steps_cases(l),
    decreases l,
{
    assert forall|i: int| 0 <= i < l.len() implies steps_case(cleaned_cases(l)[i]) == steps_case(
        #[trigger] l[i],
    ) by {
        lemma_order_seq(l[i].body);
        assert(cleaned_cases(l)[i] == cleaned_case(l[i]));
    }
    assert(steps_cases(cleaned_cases(l)) =~= steps_cases(l));
}

/// [`law_cleanup_keeps_order`] inside each catch clause.
proof fn lemma_order_catches(l: Seq<CatchV>)
    ensures
        steps_catches(cleaned_catches(l)) == steps_catches(l),
    decreases l,
{
    assert forall|i: int| 0 <= i < l.len() implies steps_catch(cleaned_catches(l)[i])
        == steps_catch(#[trigger] l[i]) by {
        law_cleanup_keeps_order(*l[i].body);
        assert(cleaned_catches(l)[i] == cleaned_catch(l[i]));
    }
    assert(steps_catches(cleaned_catches(l)) =~= steps_catches(l));
}

} // verus!
