//! What statements do.
//!
//! A state is a number that stands for all that a program can observe. A statement takes one
//! state to another and ends in one of several ways.
use crate::expr::ExprV;
use crate::meaning::{truth, value, Valuation};
use crate::stmt::{CatchV, StmtV};
use vstd::prelude::*;

verus! {

/// How a statement ends.
pub ghost enum Outcome {
    /// It completes, and what follows it runs.
    Done,
    /// It leaves the method.
    Returned(Option<int>),
    /// It throws.
    Thrown(int),
    /// It leaves for another statement.
    Left(Option<Seq<char>>),
}

/// What decides how statements run.
pub ghost struct World {
    /// The values of expressions in a state.
    pub at: spec_fn(int) -> Valuation,
    /// Statements that are not looked into.
    pub other: spec_fn(StmtV, int) -> (int, Outcome),
    /// A state in which the variable of a clause is made to hold an exception.
    pub enter: spec_fn(u32, int, int) -> int,
    /// A state without the variable of a clause.
    pub leave: spec_fn(u32, int) -> int,
    /// Whether a clause for the given classes catches an exception.
    pub catches: spec_fn(Seq<Seq<char>>, int) -> bool,
    /// The `AssertionError` with a message.
    pub failure: spec_fn(Option<int>) -> int,
    /// Whether assertions are disabled.
    pub off: bool,
}

/// The value of an expression, where there is one.
pub open spec fn told(w: World, o: Option<ExprV>, st: int) -> Option<int> {
    match o {
        Some(e) => Some(value((w.at)(st), e)),
        None => None,
    }
}

/// The exception that `throw e` throws. An `AssertionError` is known by the message that it
/// is made with.
pub open spec fn exception(w: World, e: ExprV, st: int) -> int {
    match e {
        ExprV::New { cls, args, .. } => if cls == "java/lang/AssertionError"@ {
            (w.failure)(
                told(
                    w,
                    if args.len() > 0 {
                        Some(args[0])
                    } else {
                        None
                    },
                    st,
                ),
            )
        } else {
            value((w.at)(st), e)
        },
        _ => value((w.at)(st), e),
    }
}

/// Whether a clause catches an exception; one without classes catches any.
pub open spec fn accepts(w: World, c: CatchV, x: int) -> bool {
    c.exc.len() == 0 || (w.catches)(c.exc, x)
}

/// The first clause from `i` on that catches an exception.
pub open spec fn catcher(w: World, v: Seq<CatchV>, x: int, i: int) -> Option<int>
    decreases v.len() - i,
{
    if i < 0 || i >= v.len() {
        None
    } else if accepts(w, v[i], x) {
        Some(i)
    } else {
        catcher(w, v, x, i + 1)
    }
}

/// What a statement does.
pub open spec fn run(w: World, s: StmtV, st: int) -> (int, Outcome)
    decreases s,
{
    match s {
        StmtV::Block(v) => run_list(w, v, st),
        StmtV::If { cond, then_stmt, else_stmt } => if truth(value((w.at)(st), cond)) {
            run(w, *then_stmt, st)
        } else {
            run_opt(w, else_stmt, st)
        },
        StmtV::Return(e) => (st, Outcome::Returned(told(w, e, st))),
        StmtV::Throw(e) => (st, Outcome::Thrown(exception(w, e, st))),
        StmtV::Assert { cond, msg } => if w.off || truth(value((w.at)(st), cond)) {
            (st, Outcome::Done)
        } else {
            (st, Outcome::Thrown((w.failure)(told(w, msg, st))))
        },
        StmtV::Try { body, catches, finally } => {
            let r1 = run(w, *body, st);
            let r2 = handled(w, catches, r1);
            let r3 = run_opt(w, finally, r2.0);
            if r3.1 is Done {
                (r3.0, r2.1)
            } else {
                r3
            }
        },
        _ => (w.other)(s, st),
    }
}

/// What a statement does, where there is one.
pub open spec fn run_opt(w: World, o: Option<Box<StmtV>>, st: int) -> (int, Outcome)
    decreases o,
{
    match o {
        Some(s) => run(w, *s, st),
        None => (st, Outcome::Done),
    }
}

/// What statements do one after the other, until one of them does not complete.
pub open spec fn run_list(w: World, v: Seq<StmtV>, st: int) -> (int, Outcome)
    decreases v,
{
    if v.len() == 0 {
        (st, Outcome::Done)
    } else {
        let r = run_list(w, v.drop_last(), st);
        if r.1 is Done {
            run(w, v.last(), r.0)
        } else {
            r
        }
    }
}

/// What the clauses of a `try` do once its body has ended. A last clause for any exception
/// also guards the clauses before it.
pub open spec fn handled(w: World, v: Seq<CatchV>, r: (int, Outcome)) -> (int, Outcome)
    decreases v,
{
    match r.1 {
        Outcome::Thrown(x) => match catcher(w, v, x, 0) {
            Some(i) => if 0 <= i < v.len() {
                let r1 = run_catch(w, v[i], x, r.0);
                match r1.1 {
                    Outcome::Thrown(y) => if i < v.len() - 1 && v.last().exc.len() == 0 {
                        run_catch(w, v[v.len() - 1], y, r1.0)
                    } else {
                        r1
                    },
                    _ => r1,
                }
            } else {
                r
            },
            None => r,
        },
        _ => r,
    }
}

/// What a clause does with an exception. Its variable lasts as long as the clause.
pub open spec fn run_catch(w: World, c: CatchV, x: int, st: int) -> (int, Outcome)
    decreases c,
{
    let r = run(w, *c.body, (w.enter)(c.var, x, st));
    ((w.leave)(c.var, r.0), r.1)
}

/// Statements after statements.
pub proof fn lemma_run_joined(w: World, a: Seq<StmtV>, b: Seq<StmtV>, st: int)
    ensures
        run_list(w, a + b, st) == ({
            let r = run_list(w, a, st);
            if r.1 is Done {
                run_list(w, b, r.0)
            } else {
                r
            }
        }),
    decreases b.len(),
{
    if b.len() == 0 {
        assert(a + b =~= a);
    } else {
        assert((a + b).drop_last() =~= a + b.drop_last());
        assert((a + b).last() == b.last());
        lemma_run_joined(w, a, b.drop_last(), st);
    }
}

/// One statement.
pub proof fn lemma_run_one(w: World, s: StmtV, st: int)
    ensures
        run_list(w, seq![s], st) == run(w, s, st),
{
    assert(seq![s].drop_last() =~= Seq::<StmtV>::empty());
    reveal_with_fuel(run_list, 2);
}

} // verus!
