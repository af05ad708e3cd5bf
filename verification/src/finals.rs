//! What a `finally` made of a catch-all clause means: every path does what it did.
use crate::expr::ExprV;
use crate::finallys::{
    copies_stripped, copies_stripped_catch, copies_stripped_catches, copies_stripped_opt, copy_at,
    copy_stripped_list, finally_list, finally_made, rethrow_removed, rethrow_removed_all, rethrown,
    throws_trimmed, throws_var, unthrown_len,
};
use crate::merged_news::assigned_local;
use crate::running::{
    accepts, catcher, handled, lemma_run_joined, lemma_run_one, run, run_catch, run_list, run_opt,
    told, Outcome, World,
};
use crate::stmt::{same_stmt, CatchV, StmtV};
use vstd::prelude::*;

verus! {

/// A variable holds what it was made to hold, and nothing is left of it afterwards.
pub open spec fn scoped(w: World) -> bool {
    forall|v: u32, x: int, st: int|
        {
            let st1 = #[trigger] (w.enter)(v, x, st);
            (w.leave)(v, st1) == st && ((w.at)(st1).local)(v) == x
        }
}

/// Statements that always complete.
pub open spec fn completes(w: World, fin: Seq<StmtV>) -> bool {
    forall|st: int| (#[trigger] run_list(w, fin, st)).1 is Done
}

/// Statements that neither read nor change a variable.
pub open spec fn ignores(w: World, fin: Seq<StmtV>, v: u32) -> bool {
    &&& forall|x: int, st: int|
        run_list(w, fin, #[trigger] (w.enter)(v, x, st)).0 == (w.enter)(
            v,
            x,
            run_list(w, fin, st).0,
        )
    &&& forall|st: int|
        run_list(w, fin, #[trigger] (w.leave)(v, st)).0 == (w.leave)(v, run_list(w, fin, st).0)
}

/// Statements that do not change the value of an expression.
pub open spec fn keeps(w: World, fin: Seq<StmtV>, o: Option<ExprV>) -> bool {
    forall|st: int| told(w, o, (#[trigger] run_list(w, fin, st)).0) == told(w, o, st)
}

/// Statements that complete or throw.
pub open spec fn steady(w: World, v: Seq<StmtV>) -> bool {
    forall|st: int|
        (#[trigger] run_list(w, v, st)).1 is Done || run_list(w, v, st).1 is Thrown
}

/// `v` reads like `fin` from `start` on.
pub open spec fn alike(v: Seq<StmtV>, start: int, fin: Seq<StmtV>) -> bool {
    &&& 0 <= start
    &&& start + fin.len() <= v.len()
    &&& forall|i: int| 0 <= i < fin.len() ==> same_stmt(#[trigger] v[start + i], fin[i])
}

/// `v` ends with `fin`.
pub open spec fn ends_with(v: Seq<StmtV>, fin: Seq<StmtV>) -> bool {
    v.len() >= fin.len() && v.skip(v.len() - fin.len()) == fin
}

/// Every way out of `s` but an exception goes through `fin` last; an exception does not.
pub open spec fn sealed(w: World, s: StmtV, fin: Seq<StmtV>) -> bool
    decreases s,
{
    match s {
        StmtV::Block(v) => sealed_list(w, v, fin),
        StmtV::If { then_stmt, else_stmt, .. } => sealed(w, *then_stmt, fin) && sealed_opt(
            w,
            else_stmt,
            fin,
        ),
        StmtV::Throw(_) => true,
        _ => false,
    }
}

/// [`sealed`], of a statement that is there.
pub open spec fn sealed_opt(w: World, o: Option<Box<StmtV>>, fin: Seq<StmtV>) -> bool
    decreases o,
{
    match o {
        Some(s) => sealed(w, *s, fin),
        None => false,
    }
}

/// [`sealed`], of statements one after the other: they end with `fin`, with `fin` and a
/// `return`, or with a statement that is sealed.
pub open spec fn sealed_list(w: World, v: Seq<StmtV>, fin: Seq<StmtV>) -> bool
    decreases v,
{
    let n = v.len() as int;
    let k = fin.len() as int;
    if n == 0 {
        false
    } else if ends_with(v, fin) {
        steady(w, v.take(n - k))
    } else if alike(v, n - k, fin) {
        false
    } else if v.last() is Return {
        &&& ends_with(v.drop_last(), fin)
        &&& steady(w, v.take(n - 1 - k))
        &&& keeps(w, fin, v.last()->Return_0)
    } else {
        &&& !(v.last() is Throw && alike(v, n - 1 - k, fin))
        &&& steady(w, v.drop_last())
        &&& sealed(w, v.last(), fin)
    }
}

/// No `throw` stands in `s`.
pub open spec fn throwless(s: StmtV) -> bool
    decreases s,
{
    match s {
        StmtV::Throw(_) => false,
        StmtV::Block(v) => forall|i: int| 0 <= i < v.len() ==> throwless(#[trigger] v[i]),
        StmtV::If { then_stmt, else_stmt, .. } => throwless(*then_stmt) && throwless_opt(else_stmt),
        _ => true,
    }
}

/// [`throwless`], where there is a statement.
pub open spec fn throwless_opt(o: Option<Box<StmtV>>) -> bool
    decreases o,
{
    match o {
        Some(s) => throwless(*s),
        None => true,
    }
}

/// The clause `c` runs `fin` on any exception and throws it again. It may begin by storing
/// the exception, which its variable holds already.
pub open spec fn cleans_up(w: World, c: CatchV, head: Seq<StmtV>, fin: Seq<StmtV>) -> bool {
    &&& c.exc.len() == 0
    &&& c.body matches body && (*body matches StmtV::Block(v) && v.len() > 0 && v == head + fin
        + seq![v.last()] && throws_var(v.last(), c.var))
    &&& head.len() <= 1
    &&& forall|i: int|
        0 <= i < head.len() ==> assigned_local(#[trigger] head[i]) == Some(c.var) || (
        head[i] matches StmtV::LocalDef { var, .. } && var == c.var)
    &&& forall|x: int, st: int|
        run_list(w, head, #[trigger] (w.enter)(c.var, x, st)) == (
            (w.enter)(c.var, x, st),
            Outcome::Done,
        )
}

/// `fin` is what a `finally` can hold.
pub open spec fn proper(w: World, fin: Seq<StmtV>, rv: u32) -> bool {
    &&& fin.len() > 0
    &&& completes(w, fin)
    &&& ignores(w, fin, rv)
    &&& forall|i: int| 0 <= i < fin.len() ==> throwless(#[trigger] fin[i])
    &&& forall|i: int| 0 <= i < fin.len() ==> same_stmt(#[trigger] fin[i], fin[i])
    &&& assigned_local(fin[0]) != Some(rv)
    &&& !(fin[0] matches StmtV::LocalDef { var, .. } && var == rv)
}

/// What throws nothing has no throw to lose.
proof fn lemma_rethrow_removed(s: StmtV, rv: u32)
    requires
        throwless(s),
    ensures
        rethrow_removed(s, rv) == s,
    decreases s,
{
    reveal_with_fuel(rethrow_removed, 3);
    reveal_with_fuel(throwless, 3);
    match s {
        StmtV::Block(v) => {
            if v.len() > 0 {
                assert(throwless(v[v.len() - 1]));
                assert(!throws_var(v.last(), rv));
                assert(unthrown_len(v, rv) == v.len());
                lemma_rethrow_removed(v[v.len() - 1], rv);
                assert(rethrow_removed(s, rv) == StmtV::Block(
                    v.take(v.len() - 1).push(rethrow_removed(v[v.len() - 1], rv)),
                ));
                assert(v.take(v.len() - 1).push(v[v.len() - 1]) =~= v);
                assert(rethrow_removed(s, rv) == StmtV::Block(v));
            } else {
                assert(v =~= seq![]);
                assert(unthrown_len(v, rv) == 0);
            }
        },
        StmtV::If { then_stmt, else_stmt, .. } => {
            lemma_rethrow_removed(*then_stmt, rv);
            assert(throwless_opt(else_stmt));
            if let Some(e) = else_stmt {
                lemma_rethrow_removed(*e, rv);
            }
        },
        _ => {},
    }
}

/// The `finally` body of a clause that cleans up.
proof fn lemma_finally_list(w: World, c: CatchV, head: Seq<StmtV>, fin: Seq<StmtV>)
    requires
        cleans_up(w, c, head, fin),
        proper(w, fin, c.var),
    ensures
        rethrown(*c.body) == Some(c.var),
        finally_list(*c.body, c.var) == fin,
{
    let v = c.body->Block_0;
    let rv = c.var;
    let t = v.last();
    reveal_with_fuel(rethrown, 2);
    assert(v.drop_last() =~= head + fin);
    assert((head + fin).last() == fin.last());
    assert(throwless(fin[fin.len() - 1]));
    reveal_with_fuel(throws_trimmed, 3);
    assert(throws_trimmed(v) == head + fin);
    let r = rethrow_removed_all(head + fin, rv);
    assert forall|i: int| 0 <= i < (head + fin).len() implies rethrow_removed(
        (head + fin)[i],
        rv,
    ) == #[trigger] (head + fin)[i] by {
        if i < head.len() {
            assert((head + fin)[i] == head[i]);
            assert(throwless(head[i]));
        } else {
            assert((head + fin)[i] == fin[i - head.len()]);
        }
        lemma_rethrow_removed((head + fin)[i], rv);
    }
    assert(r =~= head + fin);
    if head.len() == 0 {
        assert(r =~= fin);
    } else {
        assert(r[0] == head[0]);
        assert(r.skip(1) =~= fin);
    }
}

/// A literal copy reads alike.
proof fn lemma_copy(v: Seq<StmtV>, fin: Seq<StmtV>)
    requires
        ends_with(v, fin),
        forall|i: int| 0 <= i < fin.len() ==> same_stmt(#[trigger] fin[i], fin[i]),
    ensures
        copy_at(v, v.len() - fin.len(), fin),
{
    let n = v.len() - fin.len();
    assert forall|i: int| 0 <= i < fin.len() implies same_stmt(#[trigger] v[n + i], fin[i]) by {
        assert(v.skip(n)[i] == v[n + i]);
        assert(same_stmt(fin[i], fin[i]));
    }
}

/// Without its copies, a sealed statement does what it did but for `fin`.
#[verifier::spinoff_prover]
proof fn lemma_stripped(w: World, s: StmtV, fin: Seq<StmtV>, rv: u32, st: int)
    requires
        sealed(w, s, fin),
        proper(w, fin, rv),
    ensures
        ({
            let a = run(w, s, st);
            let b = run(w, copies_stripped(s, fin), st);
            if b.1 is Thrown {
                a == b
            } else {
                a == (run_list(w, fin, b.0).0, b.1)
            }
        }),
    decreases s,
{
    match s {
        StmtV::Block(v) => {
            lemma_stripped_list(w, v, fin, rv, st);
        },
        StmtV::If { then_stmt, else_stmt, .. } => {
            lemma_stripped(w, *then_stmt, fin, rv, st);
            assert(sealed_opt(w, else_stmt, fin));
            if let Some(e) = else_stmt {
                assert(sealed(w, *e, fin));
                lemma_stripped(w, *e, fin, rv, st);
                assert(copies_stripped_opt(else_stmt, fin) == Some(
                    Box::new(copies_stripped(*e, fin)),
                ));
                assert(run_opt(w, else_stmt, st) == run(w, *e, st));
                let e1 = Box::new(copies_stripped(*e, fin));
                assert(run_opt(w, Some(e1), st) == run(w, *e1, st));
            }
        },
        _ => {},
    }
}

/// [`lemma_stripped`] of a list.
#[verifier::spinoff_prover]
#[verifier::rlimit(30)]
proof fn lemma_stripped_list(w: World, v: Seq<StmtV>, fin: Seq<StmtV>, rv: u32, st: int)
    requires
        sealed_list(w, v, fin),
        proper(w, fin, rv),
    ensures
        ({
            let a = run_list(w, v, st);
            let b = run_list(w, copy_stripped_list(v, fin), st);
            if b.1 is Thrown {
                a == b
            } else {
                a == (run_list(w, fin, b.0).0, b.1)
            }
        }),
    decreases v,
{
    let n = v.len() as int;
    let k = fin.len() as int;
    if ends_with(v, fin) {
        lemma_copy(v, fin);
        let pre = v.take(n - k);
        assert(v =~= pre + fin);
        lemma_run_joined(w, pre, fin, st);
        assert(copy_stripped_list(v, fin) == pre);
        let m = run_list(w, pre, st);
        assert(m.1 is Done || m.1 is Thrown);
        assert(run_list(w, fin, m.0).1 is Done);
    } else if v.last() is Return {
        let u = v.drop_last();
        lemma_copy(u, fin);
        assert(alike(v, n - k, fin) == copy_at(v, n - k, fin));
        assert(copy_at(v, n - 1 - k, fin)) by {
            assert forall|i: int| 0 <= i < k implies same_stmt(
                #[trigger] v[n - 1 - k + i],
                fin[i],
            ) by {
                assert(u[n - 1 - k + i] == v[n - 1 - k + i]);
            }
        }
        let pre = v.take(n - 1 - k);
        assert(u =~= pre + fin);
        lemma_run_joined(w, pre, fin, st);
        let short = pre.push(v.last());
        assert(copy_stripped_list(v, fin) == short);
        assert(short.drop_last() =~= pre);
        let m = run_list(w, pre, st);
        assert(run_list(w, fin, m.0).1 is Done);
        assert(told(w, v.last()->Return_0, run_list(w, fin, m.0).0) == told(
            w,
            v.last()->Return_0,
            m.0,
        ));
        assert(m.1 is Done || m.1 is Thrown);
        assert(run_list(w, v, st) == if m.1 is Done {
            run(w, v.last(), run_list(w, fin, m.0).0)
        } else {
            m
        });
        assert(run_list(w, short, st) == if m.1 is Done {
            run(w, v.last(), m.0)
        } else {
            m
        });
    } else {
        assert(alike(v, n - k, fin) == copy_at(v, n - k, fin));
        assert(alike(v, n - 1 - k, fin) == copy_at(v, n - 1 - k, fin));
        let pre = v.drop_last();
        let m = run_list(w, pre, st);
        lemma_stripped(w, v.last(), fin, rv, m.0);
        let short = pre.push(copies_stripped(v.last(), fin));
        assert(copy_stripped_list(v, fin) == short);
        assert(short.drop_last() =~= pre);
        assert(m.1 is Done || m.1 is Thrown);
        assert(run_list(w, short, st) == if m.1 is Done {
            run(w, short.last(), m.0)
        } else {
            m
        });
    }
}

/// The clause that catches an exception, without the last clause.
proof fn lemma_catcher(w: World, v: Seq<CatchV>, u: Seq<CatchV>, x: int, i: int)
    requires
        v.len() > 0,
        u.len() == v.len() - 1,
        forall|j: int| 0 <= j < u.len() ==> (#[trigger] u[j]).exc == v[j].exc,
        v.last().exc.len() == 0,
        0 <= i < v.len(),
    ensures
        catcher(w, v, x, i) matches Some(j) && i <= j < v.len() && catcher(w, u, x, i) == (if j
            == v.len() - 1 {
            None
        } else {
            Some(j)
        }),
    decreases v.len() - i,
{
    if i < u.len() {
        assert(u[i].exc == v[i].exc);
        if !accepts(w, v[i], x) {
            lemma_catcher(w, v, u, x, i + 1);
        }
    }
}

/// A clause that cleans up runs `fin` and throws the exception again.
proof fn lemma_cleaned(w: World, c: CatchV, head: Seq<StmtV>, fin: Seq<StmtV>, x: int, st: int)
    requires
        scoped(w),
        cleans_up(w, c, head, fin),
        proper(w, fin, c.var),
    ensures
        run_catch(w, c, x, st) == (run_list(w, fin, st).0, Outcome::Thrown(x)),
{
    let v = c.body->Block_0;
    let st1 = (w.enter)(c.var, x, st);
    let after = run_list(w, fin, st).0;
    lemma_run_joined(w, head + fin, seq![v.last()], st1);
    lemma_run_joined(w, head, fin, st1);
    assert(run_list(w, fin, st1).1 is Done);
    assert(run_list(w, fin, st1).0 == (w.enter)(c.var, x, after));
    let st2 = (w.enter)(c.var, x, after);
    lemma_run_one(w, v.last(), st2);
    assert((w.leave)(c.var, st2) == after && ((w.at)(st2).local)(c.var) == x);
}

/// The clauses do what they did, but for `fin`.
#[verifier::spinoff_prover]
#[verifier::rlimit(40)]
proof fn lemma_handled(
    w: World,
    catches: Seq<CatchV>,
    c: Seq<CatchV>,
    head: Seq<StmtV>,
    fin: Seq<StmtV>,
    r1: (int, Outcome),
    q1: (int, Outcome),
)
    requires
        scoped(w),
        catches.len() > 0,
        cleans_up(w, catches.last(), head, fin),
        proper(w, fin, catches.last().var),
        forall|i: int|
            0 <= i < catches.len() - 1 ==> sealed(w, *(#[trigger] catches[i]).body, fin)
                && ignores(w, fin, catches[i].var) && catches[i].exc.len() > 0,
        c.len() == catches.len() - 1,
        forall|j: int|
            0 <= j < c.len() ==> #[trigger] c[j] == copies_stripped_catch(catches[j], fin),
        if q1.1 is Thrown {
            r1 == q1
        } else {
            r1 == (run_list(w, fin, q1.0).0, q1.1)
        },
    ensures
        ({
            let q2 = handled(w, c, q1);
            handled(w, catches, r1) == (run_list(w, fin, q2.0).0, q2.1)
        }),
{
    let n = catches.len() as int;
    let last = catches.last();
    if let Outcome::Thrown(x) = q1.1 {
        assert forall|j: int| 0 <= j < c.len() implies (#[trigger] c[j]).exc
            == catches[j].exc by {
            assert(c[j] == copies_stripped_catch(catches[j], fin));
        }
        lemma_catcher(w, catches, c, x, 0);
        let j = catcher(w, catches, x, 0).unwrap();
        if j == n - 1 {
            lemma_cleaned(w, last, head, fin, x, q1.0);
            assert(catches[j] == last);
            assert(handled(w, c, q1) == q1);
            assert(handled(w, catches, r1) == run_catch(w, last, x, q1.0));
        } else {
            let k = catches[j];
            let st1 = (w.enter)(k.var, x, q1.0);
            assert(c[j] == copies_stripped_catch(k, fin));
            assert(ignores(w, fin, k.var));
            lemma_stripped(w, *k.body, fin, last.var, st1);
            let a = run_catch(w, k, x, q1.0);
            let d = run_catch(w, c[j], x, q1.0);
            let e = run(w, *c[j].body, st1);
            assert(d == ((w.leave)(k.var, e.0), e.1));
            assert(run_list(w, fin, (w.leave)(k.var, e.0)).0 == (w.leave)(
                k.var,
                run_list(w, fin, e.0).0,
            ));
            assert(c.last().exc.len() > 0) by {
                assert(c[c.len() - 1] == copies_stripped_catch(catches[c.len() - 1], fin));
            }
            assert(handled(w, c, q1) == d);
            if let Outcome::Thrown(y) = e.1 {
                assert(a == d);
                lemma_cleaned(w, last, head, fin, y, a.0);
                assert(handled(w, catches, r1) == run_catch(w, last, y, a.0));
            } else {
                assert(handled(w, catches, r1) == a);
            }
        }
    }
}

/// A `try` whose last clause runs `fin` on any exception and throws it again, and whose body
/// and other clauses run `fin` before they end in any other way, does on every path exactly
/// what the `try` with a `finally` does that is made of it.
#[verifier::spinoff_prover]
#[verifier::rlimit(40)]
pub proof fn law_finally_keeps_every_path(
    w: World,
    body: StmtV,
    catches: Seq<CatchV>,
    head: Seq<StmtV>,
    fin: Seq<StmtV>,
    st: int,
)
    requires
        scoped(w),
        catches.len() > 0,
        cleans_up(w, catches.last(), head, fin),
        proper(w, fin, catches.last().var),
        sealed(w, body, fin),
        forall|i: int|
            0 <= i < catches.len() - 1 ==> sealed(w, *(#[trigger] catches[i]).body, fin)
                && ignores(w, fin, catches[i].var) && catches[i].exc.len() > 0,
    ensures
        ({
            let (b, c, f) = finally_made(body, catches, None);
            f is Some && run(
                w,
                StmtV::Try { body: Box::new(b), catches: c, finally: f },
                st,
            ) == run(w, StmtV::Try { body: Box::new(body), catches, finally: None }, st)
        }),
{
    let n = catches.len() as int;
    let last = catches.last();
    let rv = last.var;
    lemma_finally_list(w, last, head, fin);
    let (b, c, f) = finally_made(body, catches, None);
    assert(f == Some(Box::new(StmtV::Block(fin))));
    assert(b == copies_stripped(body, fin));
    assert(c == copies_stripped_catches(catches.drop_last(), fin));
    assert(c.len() == n - 1);
    assert forall|j: int| 0 <= j < c.len() implies #[trigger] c[j] == copies_stripped_catch(
        catches[j],
        fin,
    ) by {
        assert(catches.drop_last()[j] == catches[j]);
    }
    let q1 = run(w, b, st);
    lemma_stripped(w, body, fin, rv, st);
    lemma_handled(w, catches, c, head, fin, run(w, body, st), q1);
    let q2 = handled(w, c, q1);
    assert(run_list(w, fin, q2.0).1 is Done);
    assert(run_opt(w, f, q2.0) == run(w, StmtV::Block(fin), q2.0));
    assert(run(w, StmtV::Block(fin), q2.0) == run_list(w, fin, q2.0));
    let none: Option<Box<StmtV>> = None;
    let r2 = handled(w, catches, run(w, body, st));
    assert(run_opt(w, none, r2.0) == (r2.0, Outcome::Done));
}

/// A clause that ended with a copy of the new `finally` body ends without it.
pub proof fn law_copies_leave_the_clauses(
    w: World,
    body: StmtV,
    catches: Seq<CatchV>,
    head: Seq<StmtV>,
    fin: Seq<StmtV>,
    pre: Seq<StmtV>,
    i: int,
)
    requires
        catches.len() > 0,
        cleans_up(w, catches.last(), head, fin),
        proper(w, fin, catches.last().var),
        0 <= i < catches.len() - 1,
        *catches[i].body == StmtV::Block(pre + fin),
    ensures
        ({
            let (b, c, f) = finally_made(body, catches, None);
            c.len() == catches.len() - 1 && c[i] == (CatchV {
                body: Box::new(StmtV::Block(pre)),
                ..catches[i]
            }) && f == Some(Box::new(StmtV::Block(fin)))
        }),
{
    lemma_finally_list(w, catches.last(), head, fin);
    assert(catches.drop_last()[i] == catches[i]);
    let v = pre + fin;
    assert(v.skip(v.len() - fin.len()) =~= fin);
    lemma_copy(v, fin);
    assert(v.take(v.len() - fin.len()) =~= pre);
    assert(copy_stripped_list(v, fin) == pre);
    assert(copies_stripped(*catches[i].body, fin) == StmtV::Block(pre));
    let c = copies_stripped_catches(catches.drop_last(), fin);
    assert(c.len() == catches.len() - 1);
    assert(c[i] == copies_stripped_catch(catches[i], fin));
}

} // verus!
