//! What restored assertions mean: they fail exactly when the tests that they stand for do.
use crate::asserts::{
    as_assert, asserted_item, asserted_list, assertions_off, asserts_restored, asserts_restored_opt,
    failure_message, guarded_assert, throw_list, throws_assertion, zero,
};
use crate::expr::{BinOp, ExprV, UnOp};
use crate::meaning::{bit, law_inversion_is_the_opposite, truth, value};
use crate::running::{run, run_list, run_opt, told, Outcome, World};
use crate::stmt::{is_empty_block, StmtV};
use crate::types::TypeRefV;
use vstd::prelude::*;

verus! {

/// `e` reads `$assertionsDisabled`.
pub open spec fn reads_switch(e: ExprV) -> bool {
    e matches ExprV::Field { name, .. } && name == "$assertionsDisabled"@
}

/// `$assertionsDisabled` says whether assertions are disabled.
pub open spec fn honest(w: World) -> bool {
    forall|e: ExprV, st: int| reads_switch(e) ==> #[trigger] value((w.at)(st), e) == bit(w.off)
}

/// No block in `s` has more than one statement.
pub open spec fn single(s: StmtV) -> bool
    decreases s,
{
    match s {
        StmtV::Block(v) => v.len() == 0 || (v.len() == 1 && single(v[0])),
        StmtV::If { then_stmt, else_stmt, .. } => single(*then_stmt) && single_opt(else_stmt),
        _ => true,
    }
}

/// [`single`], where there is a statement.
pub open spec fn single_opt(o: Option<Box<StmtV>>) -> bool
    decreases o,
{
    match o {
        Some(s) => single(*s),
        None => true,
    }
}

/// A test of the switch has the outcome that it says.
proof fn lemma_switch(w: World, e: ExprV, st: int)
    requires
        honest(w),
    ensures
        assertions_off(e) matches Some(p) ==> truth(value((w.at)(st), e)) == (p == w.off),
    decreases e,
{
    match e {
        ExprV::Field { .. } => {
            assert(reads_switch(e) ==> value((w.at)(st), e) == bit(w.off));
        },
        ExprV::Un { e: x, .. } => {
            lemma_switch(w, *x, st);
        },
        ExprV::Bin { l, r, .. } => {
            lemma_switch(w, *l, st);
            assert(*r == zero() ==> value((w.at)(st), *r) == 0);
        },
        _ => {},
    }
}

/// Statements that only throw throw.
proof fn lemma_throws(w: World, v: Seq<StmtV>, st: int)
    requires
        v.len() > 0,
        forall|i: int| 0 <= i < v.len() ==> throws_assertion(#[trigger] v[i]),
    ensures
        run_list(w, v, st).0 == st,
        run_list(w, v, st).1 is Thrown,
        v.len() == 1 ==> run_list(w, v, st) == run(w, v[0], st),
    decreases v.len(),
{
    assert(throws_assertion(v.last()));
    if v.len() > 1 {
        assert forall|i: int| 0 <= i < v.drop_last().len() implies throws_assertion(
            #[trigger] v.drop_last()[i],
        ) by {
            assert(v.drop_last()[i] == v[i]);
        }
        lemma_throws(w, v.drop_last(), st);
    } else {
        assert(v.drop_last() =~= Seq::<StmtV>::empty());
        reveal_with_fuel(run_list, 2);
    }
}

/// What fails an assertion throws, with the message where there is one `throw`.
proof fn lemma_failure(w: World, s: StmtV, st: int)
    requires
        failure_message(s) is Some,
    ensures
        run(w, s, st).0 == st,
        run(w, s, st).1 is Thrown,
        single(s) ==> run(w, s, st).1 == Outcome::Thrown(
            (w.failure)(told(w, failure_message(s).unwrap(), st)),
        ),
{
    let v = throw_list(s);
    assert(throws_assertion(v[0]) && throws_assertion(v.last()));
    if s is Block {
        lemma_throws(w, v, st);
    } else {
        assert(v[0] == s);
    }
}

/// The assertion that a guarded statement stands for fails when the statement throws.
proof fn lemma_guarded(w: World, s: StmtV, st: int)
    requires
        guarded_assert(s) is Some,
        !w.off,
    ensures
        ({
            let a = run(w, guarded_assert(s).unwrap(), st);
            let b = run(w, s, st);
            a.0 == b.0 && (a.1 is Thrown) == (b.1 is Thrown) && (a.1 is Done) == (b.1 is Done) && (
            a.1 is Thrown || a.1 is Done) && (single(s) ==> a == b)
        }),
{
    reveal_with_fuel(run, 4);
    reveal_with_fuel(run_opt, 4);
    reveal_with_fuel(single, 4);
    if failure_message(s) is Some {
        lemma_failure(w, s, st);
        assert(value((w.at)(st), zero()) == 0);
    } else if let StmtV::If { cond, then_stmt, else_stmt } = s {
        law_inversion_is_the_opposite((w.at)(st), cond);
        assert forall|b: StmtV| is_empty_block(b) implies #[trigger] run(w, b, st) == (
            st,
            Outcome::Done,
        ) by {
            reveal_with_fuel(run_list, 2);
        }
        if failure_message(*then_stmt) is Some {
            lemma_failure(w, *then_stmt, st);
        }
        if let Some(e) = else_stmt {
            if failure_message(*e) is Some {
                lemma_failure(w, *e, st);
            }
        }
    }
}

/// A restored `assert` throws exactly when the statement that it replaces throws, and else
/// both complete, with assertions enabled or disabled. Where blocks hold no more than one
/// statement the exceptions are the same too.
pub proof fn law_assert_fails_alike(w: World, s: StmtV, st: int)
    requires
        as_assert(s) is Some,
        honest(w),
    ensures
        as_assert(s).unwrap() is Assert,
        ({
            let a = run(w, as_assert(s).unwrap(), st);
            let b = run(w, s, st);
            a.0 == b.0 && (a.1 is Thrown) == (b.1 is Thrown) && (a.1 is Done) == (b.1 is Done) && (
            a.1 is Thrown || a.1 is Done) && (single(s) ==> a == b)
        }),
{
    reveal_with_fuel(run, 4);
    reveal_with_fuel(run_opt, 4);
    reveal_with_fuel(single, 4);
    if let StmtV::If { cond, then_stmt, else_stmt } = s {
        lemma_switch(w, cond, st);
        let g = crate::asserts::guarded_side(s).unwrap();
        assert forall|b: StmtV| is_empty_block(b) implies #[trigger] run(w, b, st) == (
            st,
            Outcome::Done,
        ) by {
            reveal_with_fuel(run_list, 2);
        }
        assert(w.off ==> run(w, s, st) == (st, Outcome::Done));
        assert(!w.off ==> run(w, s, st) == run(w, g, st));
        assert(single(s) ==> single(g));
        if guarded_assert(g) is Some {
            if !w.off {
                lemma_guarded(w, g, st);
            }
        } else if let StmtV::Block(v) = g {
            assert(v =~= seq![v[0]]);
            crate::running::lemma_run_one(w, v[0], st);
            if !w.off {
                lemma_guarded(w, v[0], st);
            }
        }
    }
}

/// The test of an assertion that a compiler writes becomes an `assert`, whichever way it is
/// written: the switch read by itself or compared with zero, the failure on either side.
pub proof fn law_assertion_tests_are_restored(
    switch: ExprV,
    cond: ExprV,
    ty: Option<TypeRefV>,
    thrown: ExprV,
    x: StmtV,
)
    requires
        reads_switch(switch),
        thrown matches ExprV::New { cls, .. } && cls == "java/lang/AssertionError"@,
        ({
            let none = Box::new(StmtV::Block(seq![]));
            let fails = Box::new(StmtV::Throw(thrown));
            ||| x == *fails
            ||| x == (StmtV::If { cond, then_stmt: fails, else_stmt: None })
            ||| x == (StmtV::If { cond, then_stmt: none, else_stmt: Some(fails) })
        }),
    ensures
        ({
            let off = Box::new(switch);
            let on = ExprV::Un { op: UnOp::Not, e: off };
            let on0 = ExprV::Bin { op: BinOp::Eq, l: off, r: Box::new(zero()), ty };
            let off0 = ExprV::Bin { op: BinOp::Ne, l: off, r: Box::new(zero()), ty };
            let none = Box::new(StmtV::Block(seq![]));
            let side = Box::new(x);
            &&& as_assert(StmtV::If { cond: on, then_stmt: side, else_stmt: None }) is Some
            &&& as_assert(StmtV::If { cond: on0, then_stmt: side, else_stmt: None }) is Some
            &&& as_assert(
                StmtV::If { cond: switch, then_stmt: none, else_stmt: Some(side) },
            ) is Some
            &&& as_assert(
                StmtV::If { cond: off0, then_stmt: none, else_stmt: Some(side) },
            ) is Some
        }),
{
    let fails = StmtV::Throw(thrown);
    reveal_with_fuel(assertions_off, 3);
    assert(assertions_off(switch) == Some(true));
    assert(throw_list(fails)[0] == fails);
    assert(throws_assertion(fails));
    assert(failure_message(fails) is Some);
    assert(guarded_assert(x) is Some);
}

/// Results that differ in nothing but which exception is thrown.
pub open spec fn agree(a: (int, Outcome), b: (int, Outcome)) -> bool {
    a.0 == b.0 && (a.1 == b.1 || (a.1 is Thrown && b.1 is Thrown))
}

/// `s` consists of blocks and `if`s around statements that hold no others.
pub open spec fn branching(s: StmtV) -> bool
    decreases s,
{
    match s {
        StmtV::Block(v) => forall|i: int| 0 <= i < v.len() ==> branching(#[trigger] v[i]),
        StmtV::If { then_stmt, else_stmt, .. } => branching(*then_stmt) && branching_opt(else_stmt),
        StmtV::ExprStmt(_)
        | StmtV::LocalDef { .. }
        | StmtV::Return(_)
        | StmtV::Throw(_)
        | StmtV::Assert { .. }
        | StmtV::Break(_)
        | StmtV::Continue(_)
        | StmtV::Comment(_) => true,
        _ => false,
    }
}

/// [`branching`], where there is a statement.
pub open spec fn branching_opt(o: Option<Box<StmtV>>) -> bool
    decreases o,
{
    match o {
        Some(s) => branching(*s),
        None => true,
    }
}

/// Restoring the assertions of a statement keeps what it does: it completes, leaves or throws
/// as it did, in the same state.
pub proof fn law_restored_asserts_keep_the_course(w: World, s: StmtV, st: int)
    requires
        honest(w),
        branching(s),
    ensures
        agree(run(w, asserts_restored(s), st), run(w, s, st)),
    decreases s, 0nat,
{
    match s {
        StmtV::Block(v) => {
            lemma_restored_list(w, v, st);
        },
        StmtV::If { then_stmt, else_stmt, .. } => {
            law_restored_asserts_keep_the_course(w, *then_stmt, st);
            assert(branching_opt(else_stmt));
            if let Some(e) = else_stmt {
                law_restored_asserts_keep_the_course(w, *e, st);
                let e1 = Box::new(asserts_restored(*e));
                assert(asserts_restored_opt(else_stmt) == Some(e1));
                assert(run_opt(w, else_stmt, st) == run(w, *e, st));
                assert(run_opt(w, Some(e1), st) == run(w, *e1, st));
            } else {
                assert(asserts_restored_opt(else_stmt) == else_stmt);
            }
        },
        _ => {},
    }
}

/// A statement of a block.
proof fn lemma_restored_item(w: World, s: StmtV, st: int)
    requires
        honest(w),
        branching(s),
    ensures
        agree(run(w, asserted_item(s), st), run(w, s, st)),
    decreases s, 1nat,
{
    law_restored_asserts_keep_the_course(w, s, st);
    let x = asserts_restored(s);
    if as_assert(x) is Some {
        law_assert_fails_alike(w, x, st);
    }
}

/// The statements of a block.
proof fn lemma_restored_list(w: World, v: Seq<StmtV>, st: int)
    requires
        honest(w),
        forall|i: int| 0 <= i < v.len() ==> branching(#[trigger] v[i]),
    ensures
        agree(run_list(w, asserted_list(v), st), run_list(w, v, st)),
    decreases v, 0nat,
{
    let u = asserted_list(v);
    if v.len() > 0 {
        let f = v.drop_last();
        assert forall|i: int| 0 <= i < f.len() implies branching(#[trigger] f[i]) by {
            assert(f[i] == v[i]);
        }
        lemma_restored_list(w, f, st);
        assert(u.drop_last() =~= asserted_list(f));
        assert(branching(v[v.len() - 1]));
        assert(u.last() == asserted_item(v.last()));
        let r = run_list(w, f, st);
        lemma_restored_item(w, v.last(), r.0);
        assert(run_list(w, u, st) == ({
            let q = run_list(w, asserted_list(f), st);
            if q.1 is Done {
                run(w, u.last(), q.0)
            } else {
                q
            }
        }));
    } else {
        assert(u =~= v);
    }
}

} // verus!
