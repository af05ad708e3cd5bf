//! `try`-with-resources as later compilers write it: a handler that only closes.
use crate::expr::{clone_expr, BinOp, ConstVal, ConstValV, Expr, ExprV};
use crate::stmt::{
    case_groups, catch_list, opt_stmt, same_stmt, stmt_eq, stmts, CaseGroup, CaseGroupV, Catch,
    CatchV, Stmt, StmtV,
};
use crate::text::contains_string;
use crate::types::str_eq;
use vstd::prelude::*;

verus! {

// ---------------------------------------------------------------------
// Close calls.

/// A call of `close`.
pub open spec fn is_close_call(e: ExprV) -> bool {
    e matches ExprV::Method { name, .. } && name == "close"@
}

/// Whether `e` is a call of `close`.
pub fn close_call(e: &Expr) -> (r: bool)
    ensures
        r == is_close_call(e@),
{
    match e {
        Expr::Method { name, .. } => str_eq(name.as_str(), "close"),
        _ => false,
    }
}

/// The call of `close` that a statement is.
pub open spec fn close_stmt(e: ExprV) -> Seq<StmtV> {
    if is_close_call(e) {
        seq![StmtV::ExprStmt(e)]
    } else {
        seq![]
    }
}

/// Adds a call of `close` to `out`.
fn push_close(e: &Expr, out: &mut Vec<Stmt>)
    ensures
        stmts(final(out)@) == stmts(old(out)@) + close_stmt(e@),
{
    if close_call(e) {
        out.push(Stmt::ExprStmt(clone_expr(e)));
    }
    assert(stmts(out@) =~= stmts(old(out)@) + close_stmt(e@));
}

/// The calls of `close` in `s`, in order.
pub open spec fn closes(s: StmtV) -> Seq<StmtV>
    decreases s,
{
    match s {
        StmtV::Block(items) => closes_seq(items),
        StmtV::ExprStmt(e) => close_stmt(e),
        StmtV::If { then_stmt, else_stmt, .. } => closes(*then_stmt) + closes_opt(else_stmt),
        _ => seq![],
    }
}

/// [`closes`] where there is a value.
pub open spec fn closes_opt(o: Option<Box<StmtV>>) -> Seq<StmtV>
    decreases o,
{
    match o {
        Some(x) => closes(*x),
        None => seq![],
    }
}

/// [`closes`] over a list.
pub open spec fn closes_seq(l: Seq<StmtV>) -> Seq<StmtV>
    decreases l,
{
    if l.len() == 0 {
        seq![]
    } else {
        closes_seq(l.drop_last()) + closes(l.last())
    }
}

/// Adds the calls of `close` in `s` to `out`.
pub fn collect_close(s: &Stmt, out: &mut Vec<Stmt>)
    ensures
        stmts(final(out)@) == stmts(old(out)@) + closes(s@),
    decreases s,
{
    match s {
        Stmt::Block(items) => { collect_close_vec(items, out); },
        Stmt::ExprStmt(e) => push_close(e, out),
        Stmt::If { then_stmt, else_stmt, .. } => {
            collect_close(then_stmt, out);
            collect_close_opt(else_stmt, out);
            assert(stmts(out@) =~= stmts(old(out)@) + closes(s@));
        },
        _ => {},
    }
}

/// `collect_close` where there is a value.
pub fn collect_close_opt(o: &Option<Box<Stmt>>, out: &mut Vec<Stmt>)
    ensures
        stmts(final(out)@) == stmts(old(out)@) + closes_opt(opt_stmt(*o)),
    decreases o,
{
    if let Some(x) = o {
        collect_close(x, out);
    }
}

/// `collect_close` over a list.
#[verifier::loop_isolation(false)]
pub fn collect_close_vec(l: &Vec<Stmt>, out: &mut Vec<Stmt>)
    ensures
        stmts(final(out)@) == stmts(old(out)@) + closes_seq(stmts(l@)),
    decreases l,
{
    let ghost all = stmts(l@);
    let mut i: usize = 0;
    while i < l.len()
        invariant
            i <= l.len(),
            stmts(out@) == stmts(old(out)@) + closes_seq(all.take(i as int)),
        decreases l.len() - i,
    {
        assert(decreases_to!(l => l@[i as int]));
        assert(all.take(i + 1).drop_last() =~= all.take(i as int));
        collect_close(&l[i], out);
        i += 1;
        assert(stmts(out@) =~= stmts(old(out)@) + closes_seq(all.take(i as int)));
    }
    assert(all.take(i as int) =~= all);
}

/// The calls of `close` in `s`.
fn extract_close_calls(s: &Stmt) -> (r: Vec<Stmt>)
    ensures
        stmts(r@) == closes(s@),
{
    let mut out: Vec<Stmt> = Vec::new();
    collect_close(s, &mut out);
    assert(stmts(out@) =~= closes(s@));
    out
}

// ---------------------------------------------------------------------
// Boilerplate handlers.

/// A test of a reference against `null`.
pub open spec fn tests_null(e: ExprV) -> bool {
    e matches ExprV::Bin { op, r, .. } && ((op is RefEq || op is RefNe) && *r == ExprV::Const(
        ConstValV::Null,
    ))
}

/// Whether `e` tests a reference against `null`.
fn is_null_check(e: &Expr) -> (r: bool)
    ensures
        r == tests_null(e@),
{
    proof {
        reveal_with_fuel(Expr::view, 2);
    }
    match e {
        Expr::Bin { op, r, .. } => match op {
            BinOp::RefEq | BinOp::RefNe => matches!(**r, Expr::Const(ConstVal::Null)),
            _ => false,
        },
        _ => false,
    }
}

/// An expression that a compiler's own handler evaluates.
pub open spec fn is_boiler_call(e: ExprV) -> bool {
    match e {
        ExprV::Method { name, cls, .. } => name == "close"@ || name == "addSuppressed"@ || name
            == "getSuppressed"@ || (name == "<init>"@ && cls == "java/lang/Throwable"@),
        ExprV::Assign { .. } => true,
        _ => false,
    }
}

/// `s` is a handler that a compiler wrote: it has statements, and all of them only close
/// and rethrow.
pub open spec fn is_boiler(s: StmtV) -> bool
    decreases s, 1nat,
{
    match s {
        StmtV::Block(v) => v.len() > 0 && forall|i: int|
            0 <= i < v.len() ==> is_boiler_stmt(#[trigger] v[i]),
        _ => is_boiler_stmt(s),
    }
}

/// A statement that only closes or rethrows.
pub open spec fn is_boiler_stmt(s: StmtV) -> bool
    decreases s, 0nat,
{
    match s {
        StmtV::Throw(_) => true,
        StmtV::LocalDef { .. } => true,
        StmtV::If { cond, then_stmt, else_stmt } => tests_null(cond) && is_boiler(*then_stmt) && (
        match else_stmt {
            Some(x) => is_boiler(*x),
            None => true,
        }),
        StmtV::ExprStmt(e) => is_boiler_call(e),
        StmtV::Block(v) => are_boiler(v),
        _ => false,
    }
}

/// All are handlers that a compiler wrote.
pub open spec fn are_boiler(v: Seq<StmtV>) -> bool
    decreases v, 0nat,
{
    forall|i: int| 0 <= i < v.len() ==> is_boiler(#[trigger] v[i])
}

/// Whether an expression is one that a compiler's own handler evaluates.
fn boiler_call(e: &Expr) -> (r: bool)
    ensures
        r == is_boiler_call(e@),
{
    match e {
        Expr::Method { name, cls, .. } => str_eq(name.as_str(), "close") || str_eq(
            name.as_str(),
            "addSuppressed",
        ) || str_eq(name.as_str(), "getSuppressed") || (str_eq(name.as_str(), "<init>") && str_eq(
            cls.as_str(),
            "java/lang/Throwable",
        )),
        Expr::Assign { .. } => true,
        _ => false,
    }
}

/// Whether `s` is a handler that a compiler wrote.
#[verifier::loop_isolation(false)]
fn is_twr_boilerplate(s: &Stmt) -> (r: bool)
    ensures
        r == is_boiler(s@),
    decreases s, 1nat,
{
    match s {
        Stmt::Block(v) => {
            let ghost all = stmts(v@);
            assert(all.len() == v@.len());
            if v.len() == 0 {
                return false;
            }
            let mut i: usize = 0;
            while i < v.len()
                invariant
                    i <= v.len(),
                    forall|j: int| 0 <= j < i ==> is_boiler_stmt(#[trigger] all[j]),
                decreases v.len() - i,
            {
                assert(decreases_to!(v => v@[i as int]));
                assert(all[i as int] == v@[i as int]@);
                if !boiler_stmt(&v[i]) {
                    return false;
                }
                i += 1;
            }
            true
        },
        _ => boiler_stmt(s),
    }
}

/// Whether all are handlers that a compiler wrote.
#[verifier::loop_isolation(false)]
fn all_boiler(v: &Vec<Stmt>) -> (r: bool)
    ensures
        r == are_boiler(stmts(v@)),
    decreases v, 0nat,
{
    let ghost all = stmts(v@);
    let mut i: usize = 0;
    while i < v.len()
        invariant
            i <= v.len(),
            forall|j: int| 0 <= j < i ==> is_boiler(#[trigger] all[j]),
        decreases v.len() - i,
    {
        assert(decreases_to!(v => v@[i as int]));
        assert(all[i as int] == v@[i as int]@);
        if !is_twr_boilerplate(&v[i]) {
            return false;
        }
        i += 1;
    }
    true
}

/// Whether a statement only closes or rethrows.
fn boiler_stmt(s: &Stmt) -> (r: bool)
    ensures
        r == is_boiler_stmt(s@),
    decreases s, 0nat,
{
    match s {
        Stmt::Throw(_) => true,
        Stmt::LocalDef { .. } => true,
        Stmt::If { cond, then_stmt, else_stmt } => {
            assert(opt_stmt(*else_stmt) == (match else_stmt {
                Some(x) => Some(Box::new(x@)),
                None => None,
            }));
            is_null_check(cond) && is_twr_boilerplate(then_stmt) && match else_stmt {
                Some(x) => is_twr_boilerplate(x),
                None => true,
            }
        },
        Stmt::ExprStmt(e) => boiler_call(e),
        Stmt::Block(v) => all_boiler(v),
        _ => false,
    }
}

// ---------------------------------------------------------------------
// The pass.

/// The only clause, a compiler's own that closes something, and nothing to do finally.
pub open spec fn closes_only(catches: Seq<CatchV>, finally: Option<Box<StmtV>>) -> bool {
    finally is None && catches.len() == 1 && catches[0].exc.contains("java/lang/Throwable"@)
        && is_boiler(*catches[0].body) && closes(*catches[0].body).len() > 0
}

/// The clauses of a `try` whose only one is a compiler's own.
pub open spec fn kept_catches(catches: Seq<CatchV>, finally: Option<Box<StmtV>>) -> Seq<CatchV> {
    if closes_only(catches, finally) {
        seq![]
    } else {
        catches
    }
}

/// The `finally` of a `try` whose only clause is a compiler's own: the calls of `close`.
pub open spec fn closing_finally(catches: Seq<CatchV>, finally: Option<Box<StmtV>>) -> Option<
    Box<StmtV>,
> {
    if closes_only(catches, finally) {
        Some(Box::new(StmtV::Block(closes(*catches[0].body))))
    } else {
        finally
    }
}

/// Turns a compiler's own clause into a `finally`.
fn close_finally(catches: &mut Vec<Catch>, finally: &mut Option<Box<Stmt>>)
    ensures
        catch_list(final(catches)@) == kept_catches(
            catch_list(old(catches)@),
            opt_stmt(*old(finally)),
        ),
        opt_stmt(*final(finally)) == closing_finally(
            catch_list(old(catches)@),
            opt_stmt(*old(finally)),
        ),
{
    assert(opt_stmt(*finally) is Some == finally.is_some());
    assert(catch_list(catches@).len() == catches@.len());
    if finally.is_some() || catches.len() != 1 {
        return ;
    }
    assert(catch_list(catches@)[0] == catches@[0]@);
    if !contains_string(&catches[0].exc, "java/lang/Throwable") || !is_twr_boilerplate(
        &catches[0].body,
    ) {
        return ;
    }
    let calls = extract_close_calls(&catches[0].body);
    assert(stmts(calls@).len() == calls@.len());
    if calls.len() == 0 {
        return ;
    }
    *catches = Vec::new();
    assert(catch_list(catches@) =~= seq![]);
    let body = Box::new(Stmt::Block(calls));
    *finally = Some(body);
    assert(opt_stmt(*finally) == Some(Box::new(StmtV::Block(stmts(calls@)))));
}

/// The calls of `close` that the `finally` of a `try` makes.
pub open spec fn finally_closes(s: StmtV) -> Seq<StmtV> {
    match s {
        StmtV::Try { finally, .. } => match finally {
            Some(f) => closes(*f),
            None => seq![],
        },
        _ => seq![],
    }
}

/// `s` is one of `calls`.
pub open spec fn is_one_of(calls: Seq<StmtV>, s: StmtV) -> bool {
    exists|i: int| 0 <= i < calls.len() && same_stmt(#[trigger] calls[i], s)
}

/// `v` without the `calls` at its front.
pub open spec fn skip_calls(v: Seq<StmtV>, calls: Seq<StmtV>) -> Seq<StmtV>
    decreases v.len(),
{
    if v.len() > 0 && is_one_of(calls, v[0]) {
        skip_calls(v.skip(1), calls)
    } else {
        v
    }
}

/// A list without the calls of `close` that repeat those of the `finally` before them.
pub open spec fn without_repeats(rest: Seq<StmtV>) -> Seq<StmtV>
    decreases rest.len()
    via without_repeats_decreases
{
    if rest.len() == 0 {
        rest
    } else {
        seq![rest[0]] + without_repeats(skip_calls(rest.skip(1), finally_closes(rest[0])))
    }
}

/// Skipping does not lengthen a list.
proof fn lemma_skip_calls(v: Seq<StmtV>, calls: Seq<StmtV>)
    ensures
        skip_calls(v, calls).len() <= v.len(),
    decreases v.len(),
{
    if v.len() > 0 && is_one_of(calls, v[0]) {
        lemma_skip_calls(v.skip(1), calls);
    }
}

#[via_fn]
proof fn without_repeats_decreases(rest: Seq<StmtV>) {
    if rest.len() > 0 {
        lemma_skip_calls(rest.skip(1), finally_closes(rest[0]));
    }
}

/// The calls of `close` that the `finally` of a `try` makes.
fn repeated_calls(s: &Stmt) -> (r: Vec<Stmt>)
    ensures
        stmts(r@) == finally_closes(s@),
{
    if let Stmt::Try { finally, .. } = s {
        assert(opt_stmt(*finally) == (match finally {
            Some(x) => Some(Box::new(x@)),
            None => None,
        }));
        if let Some(f) = finally {
            return extract_close_calls(f);
        }
    }
    let none: Vec<Stmt> = Vec::new();
    assert(stmts(none@) =~= seq![]);
    none
}

/// Whether `s` is one of `calls`.
#[verifier::loop_isolation(false)]
fn one_of(calls: &Vec<Stmt>, s: &Stmt) -> (r: bool)
    ensures
        r == is_one_of(stmts(calls@), s@),
{
    let mut i: usize = 0;
    while i < calls.len()
        invariant
            i <= calls.len(),
            forall|j: int| 0 <= j < i ==> !same_stmt(#[trigger] stmts(calls@)[j], s@),
        decreases calls.len() - i,
    {
        assert(stmts(calls@)[i as int] == calls@[i as int]@);
        if stmt_eq(&calls[i], s) {
            return true;
        }
        i += 1;
    }
    false
}

/// Removes, from `at` on, the `calls`.
#[verifier::loop_isolation(false)]
#[verifier::spinoff_prover]
fn drop_calls(v: &mut Vec<Stmt>, at: usize, calls: &Vec<Stmt>)
    requires
        at <= old(v).len(),
    ensures
        at <= final(v).len() <= old(v).len(),
        final(v)@.take(at as int) == old(v)@.take(at as int),
        stmts(final(v)@.skip(at as int)) == skip_calls(
            stmts(old(v)@.skip(at as int)),
            stmts(calls@),
        ),
{
    let ghost goal = skip_calls(stmts(v@.skip(at as int)), stmts(calls@));
    while at < v.len() && one_of(calls, &v[at])
        invariant
            at <= v.len() <= old(v).len(),
            v@.take(at as int) == old(v)@.take(at as int),
            skip_calls(stmts(v@.skip(at as int)), stmts(calls@)) == goal,
        decreases v.len(),
    {
        let ghost rest = stmts(v@.skip(at as int));
        let ghost before = v@;
        assert(rest[0] == v@[at as int]@);
        v.remove(at);
        assert(v@.take(at as int) =~= before.take(at as int));
        assert(v@.skip(at as int) =~= before.skip(at + 1));
        assert(stmts(v@.skip(at as int)) =~= rest.skip(1));
    }
    if at < v.len() {
        assert(stmts(v@.skip(at as int))[0] == v@[at as int]@);
    }
}

/// Drops the calls of `close` that repeat those of the `finally` before them.
#[verifier::loop_isolation(false)]
#[verifier::spinoff_prover]
fn drop_repeats(v: &mut Vec<Stmt>)
    ensures
        stmts(final(v)@) == without_repeats(stmts(old(v)@)),
{
    let ghost goal = without_repeats(stmts(v@));
    let mut i: usize = 0;
    assert(v@.skip(0) =~= v@);
    assert(stmts(v@.take(0)) + goal =~= goal);
    while i < v.len()
        invariant
            i <= v.len(),
            stmts(v@.take(i as int)) + without_repeats(stmts(v@.skip(i as int))) == goal,
        decreases v.len() - i,
    {
        let ghost rest = stmts(v@.skip(i as int));
        let ghost done = stmts(v@.take(i as int));
        let ghost before = v@;
        assert(rest[0] == v@[i as int]@);
        assert(v@.skip(i + 1) =~= v@.skip(i as int).skip(1));
        assert(stmts(v@.skip(i + 1)) =~= rest.skip(1));
        let calls = repeated_calls(&v[i]);
        drop_calls(v, i + 1, &calls);
        assert(v@[i as int] == before[i as int]) by {
            assert(v@.take(i + 1)[i as int] == before.take(i + 1)[i as int]);
        }
        assert(stmts(v@.take(i + 1)) =~= done.push(rest[0])) by {
            assert(v@.take(i + 1) == before.take(i + 1));
        }
        assert(done
            + (seq![rest[0]] + without_repeats(stmts(v@.skip(i + 1)))) =~= done.push(rest[0])
            + without_repeats(stmts(v@.skip(i + 1))));
        i += 1;
    }
    assert(v@.take(i as int) =~= v@);
    assert(stmts(v@.skip(i as int)) =~= seq![]);
    assert(stmts(v@) + Seq::<StmtV>::empty() =~= stmts(v@));
}

/// `s` with the handlers that a compiler wrote for resources turned into `finally`
/// blocks.
pub open spec fn handlers_closed(s: StmtV) -> StmtV
    decreases s,
{
    match s {
        StmtV::Block(items) => StmtV::Block(without_repeats(handlers_closed_seq(items))),
        StmtV::If { cond, then_stmt, else_stmt } => StmtV::If {
            cond,
            then_stmt: Box::new(handlers_closed(*then_stmt)),
            else_stmt: handlers_closed_opt(else_stmt),
        },
        StmtV::While { cond, body } => StmtV::While {
            cond,
            body: Box::new(handlers_closed(*body)),
        },
        StmtV::DoWhile { body, cond } => StmtV::DoWhile {
            body: Box::new(handlers_closed(*body)),
            cond,
        },
        StmtV::For { init, cond, update, body } => StmtV::For {
            init: handlers_closed_seq(init),
            cond,
            update,
            body: Box::new(handlers_closed(*body)),
        },
        StmtV::ForEach { var, iterable, is_array, body } => StmtV::ForEach {
            var,
            iterable,
            is_array,
            body: Box::new(handlers_closed(*body)),
        },
        StmtV::Switch { selector, cases, default, on_string } => StmtV::Switch {
            selector,
            cases: handlers_closed_cases(cases),
            default: handlers_closed_opt(default),
            on_string,
        },
        StmtV::Try { body, catches, finally } => {
            let catches1 = handlers_closed_catches(catches);
            let finally1 = handlers_closed_opt(finally);
            StmtV::Try {
                body: Box::new(handlers_closed(*body)),
                catches: kept_catches(catches1, finally1),
                finally: closing_finally(catches1, finally1),
            }
        },
        StmtV::TryWithResources { resources, body, catches, finally } => {
            let catches1 = handlers_closed_catches(catches);
            let finally1 = handlers_closed_opt(finally);
            StmtV::TryWithResources {
                resources: handlers_closed_seq(resources),
                body: Box::new(handlers_closed(*body)),
                catches: kept_catches(catches1, finally1),
                finally: closing_finally(catches1, finally1),
            }
        },
        StmtV::Synchronized { lock, body } => StmtV::Synchronized {
            lock,
            body: Box::new(handlers_closed(*body)),
        },
        StmtV::Labeled { label, body } => StmtV::Labeled {
            label,
            body: Box::new(handlers_closed(*body)),
        },
        _ => s,
    }
}

/// [`handlers_closed`] where there is a value.
pub open spec fn handlers_closed_opt(o: Option<Box<StmtV>>) -> Option<Box<StmtV>>
    decreases o,
{
    match o {
        Some(x) => Some(Box::new(handlers_closed(*x))),
        None => None,
    }
}

/// [`handlers_closed`] over a list.
pub open spec fn handlers_closed_seq(v: Seq<StmtV>) -> Seq<StmtV>
    decreases v,
{
    Seq::new(v.len(), |i: int| if 0 <= i < v.len() { handlers_closed(v[i]) } else { arbitrary() })
}

/// [`handlers_closed`] inside a switch arm.
pub open spec fn handlers_closed_case(c: CaseGroupV) -> CaseGroupV
    decreases c,
{
    CaseGroupV { body: handlers_closed_seq(c.body), ..c }
}

/// [`handlers_closed`] over a list.
pub open spec fn handlers_closed_cases(v: Seq<CaseGroupV>) -> Seq<CaseGroupV>
    decreases v,
{
    Seq::new(
        v.len(),
        |i: int| if 0 <= i < v.len() { handlers_closed_case(v[i]) } else { arbitrary() },
    )
}

/// [`handlers_closed`] inside a catch clause.
pub open spec fn handlers_closed_catch(c: CatchV) -> CatchV
    decreases c,
{
    CatchV { body: Box::new(handlers_closed(*c.body)), ..c }
}

/// [`handlers_closed`] over a list.
pub open spec fn handlers_closed_catches(v: Seq<CatchV>) -> Seq<CatchV>
    decreases v,
{
    Seq::new(
        v.len(),
        |i: int| if 0 <= i < v.len() { handlers_closed_catch(v[i]) } else { arbitrary() },
    )
}

/// Turns the handlers that a compiler wrote for resources into `finally` blocks.
pub fn twr_j11(s: &mut Stmt)
    ensures
        final(s)@ == handlers_closed(old(s)@),
    decreases *old(s),
{
    match s {
        Stmt::Block(items) => { twr_j11_vec(items); drop_repeats(items); },
        Stmt::If { then_stmt, else_stmt, .. } => { twr_j11(then_stmt); twr_j11_opt(else_stmt); },
        Stmt::While { body, .. } => { twr_j11(body); },
        Stmt::DoWhile { body, .. } => { twr_j11(body); },
        Stmt::For { init, body, .. } => { twr_j11_vec(init); twr_j11(body); },
        Stmt::ForEach { body, .. } => { twr_j11(body); },
        Stmt::Switch { cases, default, .. } => { twr_j11_cases(cases); twr_j11_opt(default); },
        Stmt::Try { body, catches, finally } => {
            twr_j11(body);
            twr_j11_catches(catches);
            twr_j11_opt(finally);
            close_finally(catches, finally);
        },
        Stmt::TryWithResources { resources, body, catches, finally } => {
            twr_j11_vec(resources);
            twr_j11(body);
            twr_j11_catches(catches);
            twr_j11_opt(finally);
            close_finally(catches, finally);
        },
        Stmt::Synchronized { body, .. } => { twr_j11(body); },
        Stmt::Labeled { body, .. } => { twr_j11(body); },
        _ => {},
    }
}

/// `twr_j11` where there is a value.
pub fn twr_j11_opt(o: &mut Option<Box<Stmt>>)
    ensures
        opt_stmt(*final(o)) == handlers_closed_opt(opt_stmt(*old(o))),
    decreases *old(o),
{
    if let Some(x) = o {
        twr_j11(x);
    }
}

/// `twr_j11` over a list.
#[verifier::loop_isolation(false)]
pub fn twr_j11_vec(v: &mut Vec<Stmt>)
    ensures
        stmts(final(v)@) == handlers_closed_seq(stmts(old(v)@)),
    decreases *old(v),
{
    let mut i: usize = 0;
    while i < v.len()
        invariant
            i <= v.len(),
            v.len() == old(v).len(),
            forall|j: int| 0 <= j < i ==> (#[trigger] v@[j])@ == handlers_closed(old(v)@[j]@),
            forall|j: int| i <= j < v.len() ==> #[trigger] v@[j] == old(v)@[j],
        decreases v.len() - i,
    {
        assert(decreases_to!(*old(v) => v@[i as int]));
        twr_j11(&mut v[i]);
        i += 1;
    }
    assert(stmts(v@) =~= handlers_closed_seq(stmts(old(v)@)));
}

/// `twr_j11` inside a switch arm.
pub fn twr_j11_case(c: &mut CaseGroup)
    ensures
        final(c)@ == handlers_closed_case(old(c)@),
    decreases *old(c),
{
    twr_j11_vec(&mut c.body);
}

/// `twr_j11` over a list.
#[verifier::loop_isolation(false)]
pub fn twr_j11_cases(v: &mut Vec<CaseGroup>)
    ensures
        case_groups(final(v)@) == handlers_closed_cases(case_groups(old(v)@)),
    decreases *old(v),
{
    let mut i: usize = 0;
    while i < v.len()
        invariant
            i <= v.len(),
            v.len() == old(v).len(),
            forall|j: int| 0 <= j < i ==> (#[trigger] v@[j])@ == handlers_closed_case(old(v)@[j]@),
            forall|j: int| i <= j < v.len() ==> #[trigger] v@[j] == old(v)@[j],
        decreases v.len() - i,
    {
        assert(decreases_to!(*old(v) => v@[i as int]));
        twr_j11_case(&mut v[i]);
        i += 1;
    }
    assert(case_groups(v@) =~= handlers_closed_cases(case_groups(old(v)@)));
}

/// `twr_j11` inside a catch clause.
pub fn twr_j11_catch(c: &mut Catch)
    ensures
        final(c)@ == handlers_closed_catch(old(c)@),
    decreases *old(c),
{
    twr_j11(&mut c.body);
}

/// `twr_j11` over a list.
#[verifier::loop_isolation(false)]
pub fn twr_j11_catches(v: &mut Vec<Catch>)
    ensures
        catch_list(final(v)@) == handlers_closed_catches(catch_list(old(v)@)),
    decreases *old(v),
{
    let mut i: usize = 0;
    while i < v.len()
        invariant
            i <= v.len(),
            v.len() == old(v).len(),
            forall|j: int| 0 <= j < i ==> (#[trigger] v@[j])@ == handlers_closed_catch(old(v)@[j]@),
            forall|j: int| i <= j < v.len() ==> #[trigger] v@[j] == old(v)@[j],
        decreases v.len() - i,
    {
        assert(decreases_to!(*old(v) => v@[i as int]));
        twr_j11_catch(&mut v[i]);
        i += 1;
    }
    assert(catch_list(v@) =~= handlers_closed_catches(catch_list(old(v)@)));
}

} // verus!
