//! Constructor calls guarded by a throw, rotated to the guard form.
use crate::expr::{Expr, ExprV, UnOp};
use crate::stmt::{opt_stmt, stmts, take_stmt, Stmt, StmtV};
use crate::types::str_eq;
use vstd::prelude::*;

verus! {

/// A statement that calls a constructor on `this` or `super`.
pub open spec fn is_ctor_call(s: StmtV) -> bool {
    s matches StmtV::ExprStmt(ExprV::Method { name, .. }) && name == "<init>"@
}

/// A `throw`, or a block that ends in one.
pub open spec fn throw_terminated(s: StmtV) -> bool {
    match s {
        StmtV::Throw(_) => true,
        StmtV::Block(v) => v.len() > 0 && v.last() is Throw,
        _ => false,
    }
}

/// `s`, or a statement of a block in it at any depth, is a constructor call.
pub open spec fn contains_ctor_call(s: StmtV) -> bool
    decreases s,
{
    match s {
        StmtV::Block(v) => contains_ctor_call_seq(v),
        _ => is_ctor_call(s),
    }
}

/// [`contains_ctor_call`] of one of a list.
pub open spec fn contains_ctor_call_seq(v: Seq<StmtV>) -> bool
    decreases v,
{
    exists|i: int| 0 <= i < v.len() && contains_ctor_call(#[trigger] v[i])
}

/// The statements of a block, or the statement alone.
pub open spec fn as_list(s: StmtV) -> Seq<StmtV> {
    match s {
        StmtV::Block(v) => v,
        _ => seq![s],
    }
}

/// A list without the bare `return`s at its end.
pub open spec fn without_tail_returns(v: Seq<StmtV>) -> Seq<StmtV>
    decreases v.len(),
{
    if v.len() > 0 && v.last() == StmtV::Return(None) {
        without_tail_returns(v.drop_last())
    } else {
        v
    }
}

/// The negation of a condition; a double negation cancels.
pub open spec fn negated(cond: ExprV) -> ExprV {
    match cond {
        ExprV::Un { op, e } => if op is Not {
            *e
        } else {
            ExprV::Un { op: UnOp::Not, e: Box::new(cond) }
        },
        _ => ExprV::Un { op: UnOp::Not, e: Box::new(cond) },
    }
}

/// `body` starts with a constructor call, and `guard` throws without one.
pub open spec fn is_guarded(body: StmtV, guard: StmtV) -> bool {
    as_list(body).len() > 0 && is_ctor_call(as_list(body)[0]) && throw_terminated(guard)
        && !contains_ctor_call(guard)
}

/// `if (cond) guard`, then the statements of `body`.
pub open spec fn guard_first(cond: ExprV, guard: StmtV, body: StmtV) -> StmtV {
    StmtV::Block(
        seq![StmtV::If { cond, then_stmt: Box::new(guard), else_stmt: None }]
            + without_tail_returns(as_list(body)),
    )
}

/// `if (c) { super(..); .. } else { .. throw }` becomes
/// `if (!c) { .. throw } super(..); ..`, and `if (c) { .. throw } else { super(..); .. }`
/// becomes `if (c) { .. throw } super(..); ..`.
pub open spec fn guard_rotated(s: StmtV) -> StmtV {
    match s {
        StmtV::If { cond, then_stmt, else_stmt } => match else_stmt {
            Some(e) => if is_guarded(*then_stmt, *e) {
                guard_first(negated(cond), *e, *then_stmt)
            } else if is_guarded(*e, *then_stmt) {
                guard_first(cond, *then_stmt, *e)
            } else {
                s
            },
            None => s,
        },
        _ => s,
    }
}

/// Every statement of the block `s`, at any block depth, with its guard rotated.
pub open spec fn guards_hoisted(s: StmtV) -> StmtV
    decreases s,
{
    match s {
        StmtV::Block(v) => StmtV::Block(guards_hoisted_seq(v)),
        _ => guard_rotated(s),
    }
}

/// [`guards_hoisted`] over a list.
pub open spec fn guards_hoisted_seq(v: Seq<StmtV>) -> Seq<StmtV>
    decreases v,
{
    Seq::new(v.len(), |i: int| if 0 <= i < v.len() { guards_hoisted(v[i]) } else { arbitrary() })
}

/// Whether `s` calls a constructor.
pub fn calls_ctor(s: &Stmt) -> (r: bool)
    ensures
        r == is_ctor_call(s@),
{
    match s {
        Stmt::ExprStmt(Expr::Method { name, .. }) => str_eq(name.as_str(), "<init>"),
        _ => false,
    }
}

/// Whether `s` is a `throw` or a block that ends in one.
fn ends_in_throw(s: &Stmt) -> (r: bool)
    ensures
        r == throw_terminated(s@),
{
    match s {
        Stmt::Throw(_) => true,
        Stmt::Block(v) => {
            assert(stmts(v@).len() == v@.len());
            if v.len() == 0 {
                return false;
            }
            assert(stmts(v@).last() == v@[v@.len() - 1]@);
            matches!(&v[v.len() - 1], Stmt::Throw(_))
        },
        _ => false,
    }
}

/// Whether `s` holds a constructor call at any block depth.
fn holds_ctor_call(s: &Stmt) -> (r: bool)
    ensures
        r == contains_ctor_call(s@),
    decreases s,
{
    match s {
        Stmt::Block(v) => any_ctor_call(v),
        _ => calls_ctor(s),
    }
}

/// Whether one of a list holds a constructor call.
#[verifier::loop_isolation(false)]
fn any_ctor_call(v: &Vec<Stmt>) -> (r: bool)
    ensures
        r == contains_ctor_call_seq(stmts(v@)),
    decreases v,
{
    let mut i: usize = 0;
    while i < v.len()
        invariant
            i <= v.len(),
            forall|j: int| 0 <= j < i ==> !contains_ctor_call(#[trigger] stmts(v@)[j]),
        decreases v.len() - i,
    {
        assert(decreases_to!(v => v@[i as int]));
        assert(stmts(v@)[i as int] == v@[i as int]@);
        if holds_ctor_call(&v[i]) {
            return true;
        }
        i += 1;
    }
    false
}

/// The statements of a block, or the statement alone.
pub fn into_vec(s: Stmt) -> (r: Vec<Stmt>)
    ensures
        stmts(r@) == as_list(s@),
{
    match s {
        Stmt::Block(v) => v,
        other => {
            let ghost o = other@;
            let mut v: Vec<Stmt> = Vec::new();
            v.push(other);
            assert(stmts(v@) =~= seq![o]);
            v
        },
    }
}

/// Drops the bare `return`s at the end of a list.
#[verifier::loop_isolation(false)]
fn strip_tail_return(v: &mut Vec<Stmt>)
    ensures
        stmts(final(v)@) == without_tail_returns(stmts(old(v)@)),
{
    while v.len() > 0 && matches!(&v[v.len() - 1], Stmt::Return(None))
        invariant
            without_tail_returns(stmts(v@)) == without_tail_returns(stmts(old(v)@)),
        decreases v.len(),
    {
        let ghost before = stmts(v@);
        assert(before.last() == v@[v@.len() - 1]@);
        v.pop();
        assert(stmts(v@) =~= before.drop_last());
    }
    if v.len() > 0 {
        assert(stmts(v@).last() == v@[v@.len() - 1]@);
    }
}

/// The negation of a condition.
pub fn negate(cond: Expr) -> (r: Expr)
    ensures
        r@ == negated(cond@),
{
    match cond {
        Expr::Un { op: UnOp::Not, e } => *e,
        c => Expr::Un { op: UnOp::Not, e: Box::new(c) },
    }
}

/// Whether `body` starts with a constructor call, and `guard` throws without one.
fn guarded(body: &Stmt, guard: &Stmt) -> (r: bool)
    ensures
        r == is_guarded(body@, guard@),
{
    proof {
        reveal_with_fuel(Stmt::view, 2);
    }
    let starts = match body {
        Stmt::Block(v) => {
            assert(v.len() > 0 ==> stmts(v@)[0] == v@[0]@);
            v.len() > 0 && calls_ctor(&v[0])
        },
        other => calls_ctor(other),
    };
    starts && ends_in_throw(guard) && !holds_ctor_call(guard)
}

/// `if (cond) guard`, then the statements of `body`.
fn put_guard_first(cond: Expr, guard: Stmt, body: Stmt) -> (r: Stmt)
    ensures
        r@ == guard_first(cond@, guard@, body@),
{
    proof {
        reveal_with_fuel(Stmt::view, 2);
        reveal_with_fuel(opt_stmt, 2);
    }
    let mut rest = into_vec(body);
    strip_tail_return(&mut rest);
    let first = Stmt::If { cond, then_stmt: Box::new(guard), else_stmt: None };
    let ghost g = first@;
    let ghost tail = rest@;
    let mut out: Vec<Stmt> = Vec::new();
    out.push(first);
    out.append(&mut rest);
    assert(stmts(out@) =~= seq![g] + stmts(tail));
    Stmt::Block(out)
}

/// Rotates the guard of one `if`.
pub fn rotate_one(s: &mut Stmt)
    ensures
        final(s)@ == guard_rotated(old(s)@),
{
    proof {
        reveal_with_fuel(Stmt::view, 3);
        reveal_with_fuel(opt_stmt, 3);
    }
    match take_stmt(s) {
        Stmt::If { cond, then_stmt, else_stmt: Some(e) } => {
            if guarded(&then_stmt, &e) {
                *s = put_guard_first(negate(cond), *e, *then_stmt);
            } else if guarded(&e, &then_stmt) {
                *s = put_guard_first(cond, *then_stmt, *e);
            } else {
                *s = Stmt::If { cond, then_stmt, else_stmt: Some(e) };
            }
        },
        other => {
            *s = other;
        },
    }
}

/// Brings constructor calls out of the `if` that guards them with a `throw`, at
/// the top level of the body and of its nested blocks.
pub fn hoist_ctor_call_guards(s: &mut Stmt)
    ensures
        final(s)@ == guards_hoisted(old(s)@),
    decreases *old(s),
{
    if let Stmt::Block(v) = s {
        hoist_ctor_call_guards_vec(v);
    } else {
        rotate_one(s);
    }
}

/// `hoist_ctor_call_guards` over a list.
#[verifier::loop_isolation(false)]
pub fn hoist_ctor_call_guards_vec(v: &mut Vec<Stmt>)
    ensures
        stmts(final(v)@) == guards_hoisted_seq(stmts(old(v)@)),
    decreases *old(v),
{
    let mut i: usize = 0;
    while i < v.len()
        invariant
            i <= v.len(),
            v.len() == old(v).len(),
            forall|j: int| 0 <= j < i ==> (#[trigger] v@[j])@ == guards_hoisted(old(v)@[j]@),
            forall|j: int| i <= j < v.len() ==> #[trigger] v@[j] == old(v)@[j],
        decreases v.len() - i,
    {
        assert(decreases_to!(*old(v) => v@[i as int]));
        hoist_ctor_call_guards(&mut v[i]);
        i += 1;
    }
    assert(stmts(v@) =~= guards_hoisted_seq(stmts(old(v)@)));
}

} // verus!
