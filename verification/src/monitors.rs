//! Monitor instructions: `synchronized` blocks rebuilt, leftovers removed.
use crate::assigns::{stmt_uses_local, stmt_uses_local_seq, stmt_uses_var};
use crate::cleanup::{drop_empty, flat, flat_one, flatten_vec, nonempty};
use crate::ctor_guards::{as_list, into_vec};
use crate::expr::{as_local, expr_eq, is_local, local_var, same_expr, take_expr, Expr, ExprV};
use crate::sizes::{
    case_size, cases_size, catch_size, catches_size, lemma_cases_size, lemma_catches_size,
    lemma_stmts_size, lemma_stmts_size_first, opt_stmt_size, stmt_size, stmts_size,
};
use crate::stmt::{
    case_groups, catch_list, empty_block, is_empty_block, no_stmt, opt_stmt, stmts, CaseGroup,
    CaseGroupV, Catch, CatchV, Stmt, StmtV,
};
use crate::types::strs;
use crate::var::{is_synthetic, VarTable, VarTableV};
use vstd::prelude::*;

verus! {

// ---------------------------------------------------------------------
// Leaves.

/// The statements of `s` with all blocks flattened away.
pub open spec fn leaves(s: StmtV) -> Seq<StmtV>
    decreases s,
{
    match s {
        StmtV::Block(v) => leaves_seq(v),
        _ => seq![s],
    }
}

/// [`leaves`] of a list.
pub open spec fn leaves_seq(v: Seq<StmtV>) -> Seq<StmtV>
    decreases v,
{
    if v.len() == 0 {
        seq![]
    } else {
        leaves_seq(v.drop_last()) + leaves(v.last())
    }
}

/// Copies of the statements of `s` with all blocks flattened away.
pub fn flatten_stmts(s: &Stmt) -> (r: Vec<Stmt>)
    ensures
        stmts(r@) == leaves(s@),
{
    let mut out: Vec<Stmt> = Vec::new();
    push_leaves(s, &mut out);
    assert(stmts(out@) =~= leaves(s@));
    out
}

/// Adds copies of the leaves of `s` to `out`.
fn push_leaves(s: &Stmt, out: &mut Vec<Stmt>)
    ensures
        stmts(final(out)@) == stmts(old(out)@) + leaves(s@),
    decreases s,
{
    match s {
        Stmt::Block(v) => push_leaves_vec(v, out),
        _ => {
            out.push(s.clone());
            assert(stmts(out@) =~= stmts(old(out)@).push(s@));
            assert(stmts(out@) =~= stmts(old(out)@) + seq![s@]);
        },
    }
}

/// Adds copies of the leaves of a list to `out`.
#[verifier::loop_isolation(false)]
fn push_leaves_vec(v: &Vec<Stmt>, out: &mut Vec<Stmt>)
    ensures
        stmts(final(out)@) == stmts(old(out)@) + leaves_seq(stmts(v@)),
    decreases v,
{
    let ghost all = stmts(v@);
    let mut i: usize = 0;
    while i < v.len()
        invariant
            i <= v.len(),
            stmts(out@) == stmts(old(out)@) + leaves_seq(all.take(i as int)),
        decreases v.len() - i,
    {
        assert(decreases_to!(v => v@[i as int]));
        assert(all.take(i + 1).drop_last() =~= all.take(i as int));
        push_leaves(&v[i], out);
        i += 1;
        assert(stmts(out@) =~= stmts(old(out)@) + leaves_seq(all.take(i as int)));
    }
    assert(all.take(i as int) =~= all);
}

/// What the leaves of a handler may be.
#[derive(Clone, Copy, PartialEq, Eq, Structural)]
pub enum LeafTest {
    /// Unlock, `throw`, declaration or assignment.
    Unlocking,
    /// Unlock, `throw` or declaration.
    Rethrowing,
    /// Anything but an unlock.
    NotExit,
}

/// `s` passes the test.
pub open spec fn passes(s: StmtV, t: LeafTest) -> bool {
    match t {
        LeafTest::Unlocking => s is MonitorExit || s is Throw || s is LocalDef || (
        s matches StmtV::ExprStmt(e) && e is Assign),
        LeafTest::Rethrowing => s is MonitorExit || s is Throw || s is LocalDef,
        LeafTest::NotExit => !(s is MonitorExit),
    }
}

/// Every leaf of `s` passes the test.
pub open spec fn all_leaves(s: StmtV, t: LeafTest) -> bool
    decreases s,
{
    match s {
        StmtV::Block(v) => all_leaves_seq(v, t),
        _ => passes(s, t),
    }
}

/// [`all_leaves`] of a list.
pub open spec fn all_leaves_seq(v: Seq<StmtV>, t: LeafTest) -> bool
    decreases v,
{
    forall|i: int| 0 <= i < v.len() ==> all_leaves(#[trigger] v[i], t)
}

/// Whether every leaf of `s` passes the test.
fn leaves_pass(s: &Stmt, t: LeafTest) -> (r: bool)
    ensures
        r == all_leaves(s@, t),
    decreases s,
{
    match s {
        Stmt::Block(v) => leaves_pass_vec(v, t),
        Stmt::MonitorExit(_) => !matches!(t, LeafTest::NotExit),
        Stmt::Throw(_) | Stmt::LocalDef { .. } => true,
        Stmt::ExprStmt(Expr::Assign { .. }) => !matches!(t, LeafTest::Rethrowing),
        _ => matches!(t, LeafTest::NotExit),
    }
}

/// Whether every leaf of a list passes the test.
#[verifier::loop_isolation(false)]
fn leaves_pass_vec(v: &Vec<Stmt>, t: LeafTest) -> (r: bool)
    ensures
        r == all_leaves_seq(stmts(v@), t),
    decreases v,
{
    let mut i: usize = 0;
    while i < v.len()
        invariant
            i <= v.len(),
            forall|j: int| 0 <= j < i ==> all_leaves(#[trigger] stmts(v@)[j], t),
        decreases v.len() - i,
    {
        assert(decreases_to!(v => v@[i as int]));
        assert(stmts(v@)[i as int] == v@[i as int]@);
        if !leaves_pass(&v[i], t) {
            return false;
        }
        i += 1;
    }
    true
}

// ---------------------------------------------------------------------
// Stores that fed a monitor.

/// Variable and value of a store: an assignment to a local or a declaration with
/// a value.
pub open spec fn stored(s: StmtV) -> Option<(u32, ExprV)> {
    match s {
        StmtV::ExprStmt(ExprV::Assign { target, value, .. }) => match as_local(*target) {
            Some(v) => Some((v, *value)),
            None => None,
        },
        StmtV::LocalDef { var, init, .. } => match init {
            Some(e) => Some((var, e)),
            None => None,
        },
        _ => None,
    }
}

/// The first of `rest` stores the lock of the `synchronized` block after it in a
/// made-up variable that nothing else uses.
pub open spec fn feeds_monitor(rest: Seq<StmtV>, vt: VarTableV) -> bool {
    &&& rest.len() >= 2
    &&& stored(rest[0]) matches Some((var, val))
    &&& rest[1] matches StmtV::Synchronized { lock, body }
    &&& is_synthetic(vt, var)
    &&& same_expr(lock, val) || as_local(lock) == Some(var)
    &&& !stmt_uses_local(*body, var)
    &&& !stmt_uses_local_seq(rest.skip(2), var)
}

/// A list without the stores that feed a monitor, its other statements without
/// them inside.
pub open spec fn stores_dropped_seq(rest: Seq<StmtV>, vt: VarTableV) -> Seq<StmtV>
    decreases rest,
{
    if rest.len() == 0 {
        seq![]
    } else if feeds_monitor(rest, vt) {
        stores_dropped_seq(rest.skip(1), vt)
    } else {
        seq![stores_dropped(rest[0], vt)] + stores_dropped_seq(rest.skip(1), vt)
    }
}

/// `s` without the stores that only fed a monitor.
pub open spec fn stores_dropped(s: StmtV, vt: VarTableV) -> StmtV
    decreases s,
{
    match s {
        StmtV::Block(items) => StmtV::Block(stores_dropped_seq(items, vt)),
        StmtV::If { cond, then_stmt, else_stmt } => StmtV::If {
            cond,
            then_stmt: Box::new(stores_dropped(*then_stmt, vt)),
            else_stmt: stores_dropped_opt(else_stmt, vt),
        },
        StmtV::While { cond, body } => StmtV::While {
            cond,
            body: Box::new(stores_dropped(*body, vt)),
        },
        StmtV::DoWhile { body, cond } => StmtV::DoWhile {
            body: Box::new(stores_dropped(*body, vt)),
            cond,
        },
        StmtV::For { init, cond, update, body } => StmtV::For {
            init: stores_dropped_each(init, vt),
            cond,
            update,
            body: Box::new(stores_dropped(*body, vt)),
        },
        StmtV::ForEach { var, iterable, is_array, body } => StmtV::ForEach {
            var,
            iterable,
            is_array,
            body: Box::new(stores_dropped(*body, vt)),
        },
        StmtV::Switch { selector, cases, default, on_string } => StmtV::Switch {
            selector,
            cases: stores_dropped_cases(cases, vt),
            default: stores_dropped_opt(default, vt),
            on_string,
        },
        StmtV::Try { body, catches, finally } => StmtV::Try {
            body: Box::new(stores_dropped(*body, vt)),
            catches: stores_dropped_catches(catches, vt),
            finally: stores_dropped_opt(finally, vt),
        },
        StmtV::TryWithResources { resources, body, catches, finally } => StmtV::TryWithResources {
            resources: stores_dropped_each(resources, vt),
            body: Box::new(stores_dropped(*body, vt)),
            catches: stores_dropped_catches(catches, vt),
            finally: stores_dropped_opt(finally, vt),
        },
        StmtV::Synchronized { lock, body } => StmtV::Synchronized {
            lock,
            body: Box::new(stores_dropped(*body, vt)),
        },
        StmtV::Labeled { label, body } => StmtV::Labeled {
            label,
            body: Box::new(stores_dropped(*body, vt)),
        },
        _ => s,
    }
}

/// [`stores_dropped`] where there is a value.
pub open spec fn stores_dropped_opt(o: Option<Box<StmtV>>, vt: VarTableV) -> Option<Box<StmtV>>
    decreases o,
{
    match o {
        Some(x) => Some(Box::new(stores_dropped(*x, vt))),
        None => None,
    }
}

/// [`stores_dropped`] over a list.
pub open spec fn stores_dropped_each(v: Seq<StmtV>, vt: VarTableV) -> Seq<StmtV>
    decreases v,
{
    Seq::new(
        v.len(),
        |i: int| if 0 <= i < v.len() { stores_dropped(v[i], vt) } else { arbitrary() },
    )
}

/// [`stores_dropped`] inside a switch arm.
pub open spec fn stores_dropped_case(c: CaseGroupV, vt: VarTableV) -> CaseGroupV
    decreases c,
{
    CaseGroupV { body: stores_dropped_each(c.body, vt), ..c }
}

/// [`stores_dropped`] over a list.
pub open spec fn stores_dropped_cases(v: Seq<CaseGroupV>, vt: VarTableV) -> Seq<CaseGroupV>
    decreases v,
{
    Seq::new(
        v.len(),
        |i: int| if 0 <= i < v.len() { stores_dropped_case(v[i], vt) } else { arbitrary() },
    )
}

/// [`stores_dropped`] inside a catch clause.
pub open spec fn stores_dropped_catch(c: CatchV, vt: VarTableV) -> CatchV
    decreases c,
{
    CatchV { body: Box::new(stores_dropped(*c.body, vt)), ..c }
}

/// [`stores_dropped`] over a list.
pub open spec fn stores_dropped_catches(v: Seq<CatchV>, vt: VarTableV) -> Seq<CatchV>
    decreases v,
{
    Seq::new(
        v.len(),
        |i: int| if 0 <= i < v.len() { stores_dropped_catch(v[i], vt) } else { arbitrary() },
    )
}

/// Removes the stores of a lock in a made-up variable that only fed a
/// `synchronized` block.
pub fn drop_monitor_stores(s: &mut Stmt, vt: &VarTable)
    ensures
        final(s)@ == stores_dropped(old(s)@, vt@),
    decreases *old(s),
{
    match s {
        Stmt::Block(items) => drop_stores_vec(items, vt),
        Stmt::If { then_stmt, else_stmt, .. } => {
            drop_monitor_stores(then_stmt, vt);
            drop_monitor_stores_opt(else_stmt, vt);
        },
        Stmt::While { body, .. } => { drop_monitor_stores(body, vt); },
        Stmt::DoWhile { body, .. } => { drop_monitor_stores(body, vt); },
        Stmt::For { init, body, .. } => {
            drop_monitor_stores_vec(init, vt);
            drop_monitor_stores(body, vt);
        },
        Stmt::ForEach { body, .. } => { drop_monitor_stores(body, vt); },
        Stmt::Switch { cases, default, .. } => {
            drop_monitor_stores_cases(cases, vt);
            drop_monitor_stores_opt(default, vt);
        },
        Stmt::Try { body, catches, finally } => {
            drop_monitor_stores(body, vt);
            drop_monitor_stores_catches(catches, vt);
            drop_monitor_stores_opt(finally, vt);
        },
        Stmt::TryWithResources { resources, body, catches, finally } => {
            drop_monitor_stores_vec(resources, vt);
            drop_monitor_stores(body, vt);
            drop_monitor_stores_catches(catches, vt);
            drop_monitor_stores_opt(finally, vt);
        },
        Stmt::Synchronized { body, .. } => { drop_monitor_stores(body, vt); },
        Stmt::Labeled { body, .. } => { drop_monitor_stores(body, vt); },
        _ => {},
    }
}

/// `drop_monitor_stores` where there is a value.
pub fn drop_monitor_stores_opt(o: &mut Option<Box<Stmt>>, vt: &VarTable)
    ensures
        opt_stmt(*final(o)) == stores_dropped_opt(opt_stmt(*old(o)), vt@),
    decreases *old(o),
{
    if let Some(x) = o {
        drop_monitor_stores(x, vt);
    }
}

/// `drop_monitor_stores` over a list.
#[verifier::loop_isolation(false)]
pub fn drop_monitor_stores_vec(v: &mut Vec<Stmt>, vt: &VarTable)
    ensures
        stmts(final(v)@) == stores_dropped_each(stmts(old(v)@), vt@),
    decreases *old(v),
{
    let mut i: usize = 0;
    while i < v.len()
        invariant
            i <= v.len(),
            v.len() == old(v).len(),
            forall|j: int| 0 <= j < i ==> (#[trigger] v@[j])@ == stores_dropped(old(v)@[j]@, vt@),
            forall|j: int| i <= j < v.len() ==> #[trigger] v@[j] == old(v)@[j],
        decreases v.len() - i,
    {
        assert(decreases_to!(*old(v) => v@[i as int]));
        drop_monitor_stores(&mut v[i], vt);
        i += 1;
    }
    assert(stmts(v@) =~= stores_dropped_each(stmts(old(v)@), vt@));
}

/// `drop_monitor_stores` inside a switch arm.
pub fn drop_monitor_stores_case(c: &mut CaseGroup, vt: &VarTable)
    ensures
        final(c)@ == stores_dropped_case(old(c)@, vt@),
    decreases *old(c),
{
    drop_monitor_stores_vec(&mut c.body, vt);
}

/// `drop_monitor_stores` over a list.
#[verifier::loop_isolation(false)]
pub fn drop_monitor_stores_cases(v: &mut Vec<CaseGroup>, vt: &VarTable)
    ensures
        case_groups(final(v)@) == stores_dropped_cases(case_groups(old(v)@), vt@),
    decreases *old(v),
{
    let mut i: usize = 0;
    while i < v.len()
        invariant
            i <= v.len(),
            v.len() == old(v).len(),
            forall|j: int|
                0 <= j < i ==> (#[trigger] v@[j])@ == stores_dropped_case(old(v)@[j]@, vt@),
            forall|j: int| i <= j < v.len() ==> #[trigger] v@[j] == old(v)@[j],
        decreases v.len() - i,
    {
        assert(decreases_to!(*old(v) => v@[i as int]));
        drop_monitor_stores_case(&mut v[i], vt);
        i += 1;
    }
    assert(case_groups(v@) =~= stores_dropped_cases(case_groups(old(v)@), vt@));
}

/// `drop_monitor_stores` inside a catch clause.
pub fn drop_monitor_stores_catch(c: &mut Catch, vt: &VarTable)
    ensures
        final(c)@ == stores_dropped_catch(old(c)@, vt@),
    decreases *old(c),
{
    drop_monitor_stores(&mut c.body, vt);
}

/// `drop_monitor_stores` over a list.
#[verifier::loop_isolation(false)]
pub fn drop_monitor_stores_catches(v: &mut Vec<Catch>, vt: &VarTable)
    ensures
        catch_list(final(v)@) == stores_dropped_catches(catch_list(old(v)@), vt@),
    decreases *old(v),
{
    let mut i: usize = 0;
    while i < v.len()
        invariant
            i <= v.len(),
            v.len() == old(v).len(),
            forall|j: int|
                0 <= j < i ==> (#[trigger] v@[j])@ == stores_dropped_catch(old(v)@[j]@, vt@),
            forall|j: int| i <= j < v.len() ==> #[trigger] v@[j] == old(v)@[j],
        decreases v.len() - i,
    {
        assert(decreases_to!(*old(v) => v@[i as int]));
        drop_monitor_stores_catch(&mut v[i], vt);
        i += 1;
    }
    assert(catch_list(v@) =~= stores_dropped_catches(catch_list(old(v)@), vt@));
}

/// Variable and value of a store.
fn store_of(s: &Stmt) -> (r: Option<(u32, &Expr)>)
    ensures
        match r {
            Some((v, e)) => stored(s@) == Some((v, e@)),
            None => stored(s@) is None,
        },
{
    match s {
        Stmt::ExprStmt(Expr::Assign { target, value, .. }) => match local_var(target) {
            Some(v) => Some((v, value)),
            None => None,
        },
        Stmt::LocalDef { var, init: Some(e), .. } => Some((*var, e)),
        _ => None,
    }
}

/// Whether statement `i` only feeds the monitor after it.
#[verifier::loop_isolation(false)]
fn is_monitor_feed(v: &Vec<Stmt>, i: usize, vt: &VarTable) -> (r: bool)
    requires
        i < v.len(),
    ensures
        r == feeds_monitor(stmts(v@).skip(i as int), vt@),
{
    let ghost rest = stmts(v@).skip(i as int);
    if i + 1 >= v.len() {
        return false;
    }
    assert(rest[0] == v@[i as int]@);
    assert(rest[1] == v@[i + 1]@);
    let (var, val) = match store_of(&v[i]) {
        Some(x) => x,
        None => return false,
    };
    let (lock, body) = match &v[i + 1] {
        Stmt::Synchronized { lock, body } => (lock, body),
        _ => return false,
    };
    if !vt.is_synthetic(var) || !(expr_eq(lock, val) || is_local(lock, var)) || stmt_uses_var(
        body,
        var,
    ) {
        return false;
    }
    let mut k: usize = i + 2;
    while k < v.len()
        invariant
            i + 2 <= k <= v.len(),
            forall|j: int| 0 <= j < k - i - 2 ==> !stmt_uses_local(#[trigger] rest.skip(2)[j], var),
        decreases v.len() - k,
    {
        assert(rest.skip(2)[k - i - 2] == v@[k as int]@);
        if stmt_uses_var(&v[k], var) {
            assert(stmt_uses_local_seq(rest.skip(2), var));
            return false;
        }
        k += 1;
    }
    true
}

/// Removes the stores that feed a monitor from a list.
#[verifier::loop_isolation(false)]
#[verifier::spinoff_prover]
fn drop_stores_vec(v: &mut Vec<Stmt>, vt: &VarTable)
    ensures
        stmts(final(v)@) == stores_dropped_seq(stmts(old(v)@), vt@),
    decreases *old(v),
{
    let ghost all = stmts(v@);
    let mut i: usize = 0;
    let ghost mut k: int = 0;
    assert(
        stmts(v@.take(0)) + stores_dropped_seq(all.skip(0), vt@) =~= stores_dropped_seq(all, vt@)
    ) by {
        assert(all.skip(0) =~= all);
    }
    while i < v.len()
        invariant
            0 <= i <= k <= old(v).len(),
            v.len() - i == old(v).len() - k,
            forall|j: int| i <= j < v.len() ==> #[trigger] v@[j] == old(v)@[j - i + k],
            stmts(v@.take(i as int)) + stores_dropped_seq(all.skip(k), vt@) == stores_dropped_seq(
                all,
                vt@,
            ),
        decreases v.len() - i,
    {
        let ghost rest = all.skip(k);
        assert(stmts(v@).skip(i as int) =~= rest);
        assert(rest.skip(1) =~= all.skip(k + 1));
        assert(rest[0] == v@[i as int]@);
        let ghost done = stmts(v@.take(i as int));
        if is_monitor_feed(v, i, vt) {
            let ghost whole = v@;
            v.remove(i);
            assert(v@.take(i as int) =~= whole.take(i as int));
        } else {
            assert(decreases_to!(*old(v) => v@[i as int]));
            drop_monitor_stores(&mut v[i], vt);
            i += 1;
            assert(stmts(v@.take(i as int)) =~= done.push(stores_dropped(rest[0], vt@)));
            assert(done
                + (seq![stores_dropped(rest[0], vt@)] + stores_dropped_seq(rest.skip(1), vt@))
                =~= done.push(stores_dropped(rest[0], vt@))
                    + stores_dropped_seq(rest.skip(1), vt@));
        }
        proof {
            k = k + 1;
        }
    }
    assert(v@.take(i as int) =~= v@);
    assert(stores_dropped_seq(all.skip(k), vt@) =~= seq![]);
    assert(stmts(v@) + Seq::<StmtV>::empty() =~= stmts(v@));
}

// ---------------------------------------------------------------------
// The last lock of a statement.

/// A plain `break` or `continue`.
pub open spec fn is_plain_jump(s: StmtV) -> bool {
    s == StmtV::Break(None) || s == StmtV::Continue(None)
}

/// Length of `v` without the empty blocks and plain jumps at its end.
pub open spec fn core_len(v: Seq<StmtV>) -> nat
    decreases v.len(),
{
    if v.len() > 0 && (is_empty_block(v.last()) || is_plain_jump(v.last())) {
        core_len(v.drop_last())
    } else {
        v.len()
    }
}

/// The lock taken at the end of `s`, and `s` without it: the last statement of
/// nested blocks that is no empty block or plain jump, entered through `if`s
/// without `else`, loops and labels. Empty blocks after it go.
pub open spec fn trailing_taken(s: StmtV) -> (StmtV, Option<ExprV>)
    decreases s,
{
    match s {
        StmtV::MonitorEnter(e) => (StmtV::MonitorEnter(ExprV::This), Some(e)),
        StmtV::Block(v) => {
            let n = core_len(v) as int;
            let tail = nonempty(v.skip(n));
            if n <= 0 || n > v.len() {
                (StmtV::Block(tail), None)
            } else {
                match v[n - 1] {
                    StmtV::MonitorEnter(e) => (StmtV::Block(v.take(n - 1) + tail), Some(e)),
                    _ => {
                        let (x, lock) = trailing_taken(v[n - 1]);
                        (StmtV::Block(v.take(n - 1).push(x) + tail), lock)
                    },
                }
            }
        },
        StmtV::If { cond, then_stmt, else_stmt } => if else_stmt is None {
            let (x, lock) = trailing_taken(*then_stmt);
            (StmtV::If { cond, then_stmt: Box::new(x), else_stmt }, lock)
        } else {
            (s, None)
        },
        StmtV::While { cond, body } => {
            let (x, lock) = trailing_taken(*body);
            (StmtV::While { cond, body: Box::new(x) }, lock)
        },
        StmtV::DoWhile { body, cond } => {
            let (x, lock) = trailing_taken(*body);
            (StmtV::DoWhile { body: Box::new(x), cond }, lock)
        },
        StmtV::Labeled { label, body } => {
            let (x, lock) = trailing_taken(*body);
            (StmtV::Labeled { label, body: Box::new(x) }, lock)
        },
        StmtV::Synchronized { lock, body } => {
            let (x, taken) = trailing_taken(*body);
            (StmtV::Synchronized { lock, body: Box::new(x) }, taken)
        },
        _ => (s, None),
    }
}

/// Where the lock at the end of `s` stands: for each statement on the way to it, how
/// many follow it in its block.
pub open spec fn trailing_place(s: StmtV) -> Seq<nat>
    decreases s,
{
    match s {
        StmtV::Block(v) => {
            let n = core_len(v) as int;
            if n <= 0 || n > v.len() {
                seq![]
            } else {
                let after = nonempty(v.skip(n)).len();
                match v[n - 1] {
                    StmtV::MonitorEnter(_) => seq![after],
                    _ => seq![after] + trailing_place(v[n - 1]),
                }
            }
        },
        StmtV::If { then_stmt, else_stmt, .. } => if else_stmt is None {
            seq![0nat] + trailing_place(*then_stmt)
        } else {
            seq![]
        },
        StmtV::While { body, .. } => seq![0nat] + trailing_place(*body),
        StmtV::DoWhile { body, .. } => seq![0nat] + trailing_place(*body),
        StmtV::Labeled { body, .. } => seq![0nat] + trailing_place(*body),
        StmtV::Synchronized { body, .. } => seq![0nat] + trailing_place(*body),
        _ => seq![],
    }
}

/// `s` with `enter` put at `place`.
pub open spec fn trailing_restored(s: StmtV, enter: StmtV, place: Seq<nat>) -> StmtV
    decreases s,
{
    if place.len() == 0 {
        enter
    } else {
        let rest = place.skip(1);
        match s {
            StmtV::Block(v) => {
                let at = v.len() - place[0];
                if place.len() == 1 {
                    if 0 <= at {
                        StmtV::Block(v.insert(at, enter))
                    } else {
                        s
                    }
                } else if 0 < at {
                    StmtV::Block(v.update(at - 1, trailing_restored(v[at - 1], enter, rest)))
                } else {
                    s
                }
            },
            StmtV::If { cond, then_stmt, else_stmt } => StmtV::If {
                cond,
                then_stmt: Box::new(trailing_restored(*then_stmt, enter, rest)),
                else_stmt,
            },
            StmtV::While { cond, body } => StmtV::While {
                cond,
                body: Box::new(trailing_restored(*body, enter, rest)),
            },
            StmtV::DoWhile { body, cond } => StmtV::DoWhile {
                body: Box::new(trailing_restored(*body, enter, rest)),
                cond,
            },
            StmtV::Labeled { label, body } => StmtV::Labeled {
                label,
                body: Box::new(trailing_restored(*body, enter, rest)),
            },
            StmtV::Synchronized { lock, body } => StmtV::Synchronized {
                lock,
                body: Box::new(trailing_restored(*body, enter, rest)),
            },
            _ => s,
        }
    }
}

/// `s` without the empty blocks after the statement that a lock is looked for in.
pub open spec fn tail_tidied(s: StmtV) -> StmtV
    decreases s,
{
    match s {
        StmtV::Block(v) => {
            let n = core_len(v) as int;
            let tail = nonempty(v.skip(n));
            if n <= 0 || n > v.len() {
                StmtV::Block(tail)
            } else {
                StmtV::Block(v.take(n - 1).push(tail_tidied(v[n - 1])) + tail)
            }
        },
        StmtV::If { cond, then_stmt, else_stmt } => if else_stmt is None {
            StmtV::If { cond, then_stmt: Box::new(tail_tidied(*then_stmt)), else_stmt }
        } else {
            s
        },
        StmtV::While { cond, body } => StmtV::While { cond, body: Box::new(tail_tidied(*body)) },
        StmtV::DoWhile { body, cond } => StmtV::DoWhile {
            body: Box::new(tail_tidied(*body)),
            cond,
        },
        StmtV::Labeled { label, body } => StmtV::Labeled {
            label,
            body: Box::new(tail_tidied(*body)),
        },
        StmtV::Synchronized { lock, body } => StmtV::Synchronized {
            lock,
            body: Box::new(tail_tidied(*body)),
        },
        _ => s,
    }
}

/// A lock that was taken from the end of a statement and is put back stands where it
/// stood; only empty blocks after it are gone.
pub proof fn law_restore_undoes_take(s: StmtV)
    ensures
        match trailing_taken(s) {
            (y, Some(lock)) => trailing_restored(y, StmtV::MonitorEnter(lock), trailing_place(s))
                == tail_tidied(s),
            (y, None) => y == tail_tidied(s),
        },
    decreases s,
{
    match s {
        StmtV::Block(v) => {
            let n = core_len(v) as int;
            let tail = nonempty(v.skip(n));
            if 0 < n <= v.len() {
                let place = trailing_place(s);
                let (y, lock) = trailing_taken(s);
                match v[n - 1] {
                    StmtV::MonitorEnter(e) => {
                        let w = v.take(n - 1) + tail;
                        assert(w.insert(n - 1, StmtV::MonitorEnter(e)) =~= v.take(n - 1).push(
                            v[n - 1],
                        ) + tail);
                    },
                    _ => {
                        law_restore_undoes_take(v[n - 1]);
                        let (x, _) = trailing_taken(v[n - 1]);
                        if let Some(e) = lock {
                            let w = v.take(n - 1).push(x) + tail;
                            let enter = StmtV::MonitorEnter(e);
                            assert(w.len() - place[0] == n);
                            assert(place.skip(1) =~= trailing_place(v[n - 1]));
                            if trailing_place(v[n - 1]).len() == 0 {
                                lemma_no_place(v[n - 1]);
                            }
                            assert(w[n - 1] == x);
                            assert(w.update(n - 1, trailing_restored(x, enter, place.skip(1)))
                                =~= v.take(n - 1).push(tail_tidied(v[n - 1])) + tail);
                        }
                    },
                }
            }
        },
        StmtV::If { then_stmt, else_stmt, .. } => {
            if else_stmt is None {
                law_restore_undoes_take(*then_stmt);
                assert((seq![0nat] + trailing_place(*then_stmt)).skip(1) =~= trailing_place(
                    *then_stmt,
                ));
            }
        },
        StmtV::While { body, .. } => {
            law_restore_undoes_take(*body);
            assert((seq![0nat] + trailing_place(*body)).skip(1) =~= trailing_place(*body));
        },
        StmtV::DoWhile { body, .. } => {
            law_restore_undoes_take(*body);
            assert((seq![0nat] + trailing_place(*body)).skip(1) =~= trailing_place(*body));
        },
        StmtV::Labeled { body, .. } => {
            law_restore_undoes_take(*body);
            assert((seq![0nat] + trailing_place(*body)).skip(1) =~= trailing_place(*body));
        },
        StmtV::Synchronized { body, .. } => {
            law_restore_undoes_take(*body);
            assert((seq![0nat] + trailing_place(*body)).skip(1) =~= trailing_place(*body));
        },
        _ => {},
    }
}

/// A lock that is found without a way to it is the statement itself.
proof fn lemma_no_place(s: StmtV)
    requires
        trailing_place(s).len() == 0,
        trailing_taken(s).1 is Some,
    ensures
        s is MonitorEnter,
{
}

/// Model of an optional expression result.
pub open spec fn opt_view(o: Option<Expr>) -> Option<ExprV> {
    match o {
        Some(e) => Some(e@),
        None => None,
    }
}

/// Removes and returns the lock taken at the end of `s`.
pub fn take_trailing_monitor(s: &mut Stmt) -> (r: Option<Expr>)
    ensures
        (final(s)@, opt_view(r)) == trailing_taken(old(s)@),
    decreases *old(s),
{
    match s {
        Stmt::MonitorEnter(e) => Some(take_expr(e)),
        Stmt::Block(v) => take_trailing_vec(v),
        Stmt::If { then_stmt, else_stmt, .. } => {
            assert(opt_stmt(*else_stmt) is None <==> *else_stmt is None);
            if else_stmt.is_none() {
                take_trailing_monitor(then_stmt)
            } else {
                None
            }
        },
        Stmt::While { body, .. } => take_trailing_monitor(body),
        Stmt::DoWhile { body, .. } => take_trailing_monitor(body),
        Stmt::Labeled { body, .. } => take_trailing_monitor(body),
        Stmt::Synchronized { body, .. } => take_trailing_monitor(body),
        _ => None,
    }
}

/// Whether `s` is a plain `break` or `continue`.
fn plain_jump(s: &Stmt) -> (r: bool)
    ensures
        r == is_plain_jump(s@),
{
    match s {
        Stmt::Break(l) => l.is_none(),
        Stmt::Continue(l) => l.is_none(),
        _ => false,
    }
}

/// `take_trailing_monitor` on the statements of a block.
#[verifier::loop_isolation(false)]
#[verifier::spinoff_prover]
fn take_trailing_vec(v: &mut Vec<Stmt>) -> (r: Option<Expr>)
    ensures
        (StmtV::Block(stmts(final(v)@)), opt_view(r)) == trailing_taken(
            StmtV::Block(stmts(old(v)@)),
        ),
    decreases *old(v),
{
    let ghost all = stmts(v@);
    let mut n: usize = v.len();
    assert(all.take(n as int) =~= all);
    assert(v@.skip(n as int) =~= seq![]);
    assert(stmts(v@.skip(n as int)) =~= nonempty(all.skip(n as int)));
    while n > 0 && (v[n - 1].is_empty_block() || plain_jump(&v[n - 1]))
        invariant
            n <= v.len(),
            n <= old(v).len(),
            forall|j: int| 0 <= j < n ==> #[trigger] v@[j] == old(v)@[j],
            core_len(all) == core_len(all.take(n as int)),
            stmts(v@.skip(n as int)) == nonempty(all.skip(n as int)),
        decreases n,
    {
        let ghost whole = v@;
        assert(all.take(n as int).drop_last() =~= all.take(n - 1));
        assert(all.take(n as int).last() == v@[n - 1]@);
        proof {
            lemma_nonempty_first(all.skip(n - 1));
            assert(all.skip(n - 1).skip(1) =~= all.skip(n as int));
            assert(all.skip(n - 1)[0] == v@[n - 1]@);
        }
        if v[n - 1].is_empty_block() {
            v.remove(n - 1);
            assert(v@.skip(n - 1) =~= whole.skip(n as int));
        } else {
            assert(stmts(v@.skip(n - 1)) =~= seq![v@[n - 1]@] + stmts(v@.skip(n as int)));
        }
        n -= 1;
    }
    if n > 0 {
        assert(all.take(n as int).last() == v@[n - 1]@);
    }
    assert(core_len(all) == n);
    let ghost tail = stmts(v@.skip(n as int));
    if n == 0 {
        assert(v@.skip(0) =~= v@);
        return None;
    }
    assert(all[n - 1] == v@[n - 1]@);
    let ghost whole = v@;
    if matches!(&v[n - 1], Stmt::MonitorEnter(_)) {
        let taken = v.remove(n - 1);
        assert(stmts(v@) =~= all.take(n - 1) + tail) by {
            assert forall|j: int| 0 <= j < n - 1 implies #[trigger] v@[j] == old(v)@[j] by {
                assert(whole[j] == old(v)@[j]);
            }
        }
        match taken {
            Stmt::MonitorEnter(e) => Some(e),
            _ => None,
        }
    } else {
        assert(decreases_to!(*old(v) => v@[n - 1]));
        let r = take_trailing_monitor(&mut v[n - 1]);
        assert(stmts(v@) =~= all.take(n - 1).push(trailing_taken(all[n - 1]).0) + tail) by {
            assert forall|j: int| 0 <= j < n - 1 implies #[trigger] v@[j] == old(v)@[j] by {
                assert(whole[j] == old(v)@[j]);
            }
        }
        r
    }
}

/// Model of a place.
pub open spec fn steps(v: Seq<usize>) -> Seq<nat> {
    Seq::new(v.len(), |i: int| v[i] as nat)
}

/// Length of `v` without the empty blocks and plain jumps at its end.
fn count_core(v: &Vec<Stmt>) -> (n: usize)
    ensures
        n == core_len(stmts(v@)),
        n <= v.len(),
{
    let ghost all = stmts(v@);
    let mut n: usize = v.len();
    assert(all.take(n as int) =~= all);
    while n > 0 && (v[n - 1].is_empty_block() || plain_jump(&v[n - 1]))
        invariant
            n <= v.len(),
            all == stmts(v@),
            core_len(all.take(n as int)) == core_len(all),
        decreases n,
    {
        assert(all.take(n as int).drop_last() =~= all.take(n - 1));
        assert(all.take(n as int).last() == v@[n - 1]@);
        n -= 1;
    }
    if n > 0 {
        assert(all.take(n as int).last() == v@[n - 1]@);
    }
    n
}

/// Number of statements of `v` from `n` on that are no empty blocks.
fn count_nonempty(v: &Vec<Stmt>, n: usize) -> (r: usize)
    requires
        n <= v.len(),
    ensures
        r == nonempty(stmts(v@).skip(n as int)).len(),
{
    let ghost all = stmts(v@);
    let mut r: usize = 0;
    let mut i: usize = v.len();
    assert(all.skip(i as int) =~= seq![]);
    while i > n
        invariant
            n <= i <= v.len(),
            all == stmts(v@),
            r <= v.len() - i,
            r == nonempty(all.skip(i as int)).len(),
        decreases i,
    {
        i -= 1;
        proof {
            lemma_nonempty_first(all.skip(i as int));
            assert(all.skip(i as int).skip(1) =~= all.skip(i + 1));
            assert(all.skip(i as int)[0] == v@[i as int]@);
        }
        if !v[i].is_empty_block() {
            r += 1;
        }
    }
    r
}

/// Puts a step in front of a place.
fn first_step(step: usize, rest: Vec<usize>) -> (r: Vec<usize>)
    ensures
        steps(r@) == seq![step as nat] + steps(rest@),
{
    let mut r = rest;
    r.insert(0, step);
    assert(steps(r@) =~= seq![step as nat] + steps(rest@));
    r
}

/// Where the lock at the end of `s` stands.
pub fn find_trailing_place(s: &Stmt) -> (r: Vec<usize>)
    ensures
        steps(r@) == trailing_place(s@),
    decreases s,
{
    let none: Vec<usize> = Vec::new();
    assert(steps(none@) =~= seq![]);
    match s {
        Stmt::Block(v) => {
            let n = count_core(v);
            assert(stmts(v@).len() == v@.len());
            if n == 0 {
                return none;
            }
            let after = count_nonempty(v, n);
            assert(stmts(v@)[n - 1] == v@[n - 1]@);
            assert(decreases_to!(v => v@[n - 1]));
            if matches!(&v[n - 1], Stmt::MonitorEnter(_)) {
                let r = first_step(after, none);
                assert(steps(r@) =~= seq![after as nat]);
                r
            } else {
                first_step(after, find_trailing_place(&v[n - 1]))
            }
        },
        Stmt::If { then_stmt, else_stmt, .. } => {
            assert(opt_stmt(*else_stmt) is None <==> *else_stmt is None);
            if else_stmt.is_none() {
                first_step(0, find_trailing_place(then_stmt))
            } else {
                none
            }
        },
        Stmt::While { body, .. } => first_step(0, find_trailing_place(body)),
        Stmt::DoWhile { body, .. } => first_step(0, find_trailing_place(body)),
        Stmt::Labeled { body, .. } => first_step(0, find_trailing_place(body)),
        Stmt::Synchronized { body, .. } => first_step(0, find_trailing_place(body)),
        _ => none,
    }
}

/// Puts a lock back where it stood.
pub fn restore_trailing_monitor(s: &mut Stmt, enter: Stmt, place: &Vec<usize>)
    ensures
        final(s)@ == trailing_restored(old(s)@, enter@, steps(place@)),
{
    assert(steps(place@).skip(0) =~= steps(place@));
    restore_from(s, enter, place, 0);
}

/// Puts a lock back where it stood, `k` steps down.
fn restore_from(s: &mut Stmt, enter: Stmt, place: &Vec<usize>, k: usize)
    requires
        k <= place.len(),
    ensures
        final(s)@ == trailing_restored(old(s)@, enter@, steps(place@).skip(k as int)),
    decreases *old(s),
{
    let ghost here = steps(place@).skip(k as int);
    if k == place.len() {
        *s = enter;
        return ;
    }
    assert(here[0] == place@[k as int] as nat);
    assert(here.skip(1) =~= steps(place@).skip(k + 1));
    match s {
        Stmt::Block(v) => {
            let after = place[k];
            let ghost all = stmts(v@);
            assert(all.len() == v@.len());
            if k + 1 == place.len() {
                if after <= v.len() {
                    let at = v.len() - after;
                    let ghost x = enter@;
                    v.insert(at, enter);
                    assert(stmts(v@) =~= all.insert(at as int, x));
                }
            } else if after < v.len() {
                let at = v.len() - after;
                let ghost whole = v@;
                assert(all[at - 1] == v@[at - 1]@);
                assert(decreases_to!(*old(s) => v@[at - 1]));
                restore_from(&mut v[at - 1], enter, place, k + 1);
                assert(stmts(v@) =~= all.update(
                    at - 1,
                    trailing_restored(all[at - 1], enter@, here.skip(1)),
                )) by {
                    assert forall|j: int| 0 <= j < v@.len() && j != at - 1 implies #[trigger] v@[j]
                        == whole[j] by {}
                }
            }
        },
        Stmt::If { then_stmt, .. } => restore_from(then_stmt, enter, place, k + 1),
        Stmt::While { body, .. } => restore_from(body, enter, place, k + 1),
        Stmt::DoWhile { body, .. } => restore_from(body, enter, place, k + 1),
        Stmt::Labeled { body, .. } => restore_from(body, enter, place, k + 1),
        Stmt::Synchronized { body, .. } => restore_from(body, enter, place, k + 1),
        _ => {},
    }
}

/// Dropping empty blocks, seen from the front.
pub proof fn lemma_nonempty_first(v: Seq<StmtV>)
    requires
        v.len() > 0,
    ensures
        nonempty(v) == (if is_empty_block(v[0]) {
            seq![]
        } else {
            seq![v[0]]
        }) + nonempty(v.skip(1)),
    decreases v.len(),
{
    if v.len() == 1 {
        assert(v.drop_last() =~= seq![]);
        assert(v.skip(1) =~= seq![]);
        assert(nonempty(v) =~= (if is_empty_block(v[0]) {
            seq![]
        } else {
            seq![v[0]]
        }) + nonempty(v.skip(1)));
    } else {
        lemma_nonempty_first(v.drop_last());
        assert(v.drop_last().skip(1) =~= v.skip(1).drop_last());
        assert(nonempty(v) =~= (if is_empty_block(v[0]) {
            seq![]
        } else {
            seq![v[0]]
        }) + nonempty(v.skip(1)));
    }
}

// ---------------------------------------------------------------------
// `synchronized` blocks.

/// `v` without its unlock statements.
pub open spec fn without_exits(v: Seq<StmtV>) -> Seq<StmtV>
    decreases v.len(),
{
    if v.len() == 0 {
        seq![]
    } else {
        without_exits(v.drop_last()) + if v.last() is MonitorExit {
            seq![]
        } else {
            seq![v.last()]
        }
    }
}

/// A handler or `finally` that unlocks and does nothing else of note.
pub open spec fn unlocks(s: StmtV) -> bool {
    !all_leaves(s, LeafTest::NotExit) && all_leaves(s, LeafTest::Unlocking)
}

/// The handlers of a `try` do what javac emits for a `synchronized` block.
pub open spec fn is_unlocking_try(catches: Seq<CatchV>, finally: Option<Box<StmtV>>) -> bool {
    match finally {
        None => catches.len() == 1 && catches[0].exc.len() == 0 && unlocks(*catches[0].body),
        Some(f) => unlocks(*f) && (catches.len() == 0 || (catches.len() == 1
            && catches[0].exc.len() == 0 && all_leaves(*catches[0].body, LeafTest::Unlocking))),
    }
}

/// The `synchronized` block that a lock and the `try` after it stand for.
pub open spec fn synchronized(lock: ExprV, t: StmtV) -> Option<StmtV> {
    match t {
        StmtV::Try { body, catches, finally } => if is_unlocking_try(catches, finally) {
            Some(
                StmtV::Synchronized {
                    lock,
                    body: Box::new(StmtV::Block(without_exits(as_list(*body)))),
                },
            )
        } else {
            None
        },
        _ => None,
    }
}

/// A `synchronized` block is not larger than the `try` it stands for.
proof fn lemma_synchronized_size(lock: ExprV, t: StmtV)
    ensures
        synchronized(lock, t) matches Some(s) ==> stmt_size(s) <= stmt_size(t),
{
    if let StmtV::Try { body, catches, finally } = t {
        let list = as_list(*body);
        lemma_without_exits_size(list);
        assert(stmt_size(StmtV::Block(without_exits(list))) == 1 + stmts_size(without_exits(list)));
        if !(*body is Block) {
            assert(list.drop_last() =~= seq![]);
            assert(stmts_size(list) == 1 + stmts_size(list.drop_last()) + stmt_size(list.last()));
        } else {
            assert(stmt_size(*body) == 1 + stmts_size(list));
        }
        assert(opt_stmt_size(finally) >= 1);
        if let Some(f) = finally {
            assert(stmt_size(*f) >= 1);
        }
        if catches.len() == 1 {
            assert(catches_size(catches) >= 1 + catch_size(catches.last()));
            assert(catch_size(catches.last()) >= 2);
        }
    }
}

/// Dropping unlock statements does not add to the size.
proof fn lemma_without_exits_size(v: Seq<StmtV>)
    ensures
        stmts_size(without_exits(v)) <= stmts_size(v),
    decreases v.len(),
{
    if v.len() > 0 {
        let front = without_exits(v.drop_last());
        lemma_without_exits_size(v.drop_last());
        if v.last() is MonitorExit {
            assert(without_exits(v) =~= front);
        } else {
            assert(without_exits(v) =~= front.push(v.last()));
            assert(without_exits(v).drop_last() =~= front);
        }
    }
}

/// Flattening does not add to the size.
proof fn lemma_flat_size(v: Seq<StmtV>)
    ensures
        stmts_size(flat(v)) <= stmts_size(v),
    decreases v.len(),
{
    if v.len() > 0 {
        lemma_flat_size(v.drop_last());
        lemma_concat_size(flat(v.drop_last()), flat_one(v.last()));
        let one = flat_one(v.last());
        if v.last() is Block {
            assert(stmt_size(v.last()) == 1 + stmts_size(one));
        } else {
            assert(one.drop_last() =~= seq![]);
            assert(stmts_size(one) == 1 + stmts_size(one.drop_last()) + stmt_size(one.last()));
        }
    }
}

/// The size of a concatenation.
proof fn lemma_concat_size(a: Seq<StmtV>, b: Seq<StmtV>)
    ensures
        stmts_size(a + b) == stmts_size(a) + stmts_size(b),
    decreases b.len(),
{
    if b.len() == 0 {
        assert(a + b =~= a);
    } else {
        lemma_concat_size(a, b.drop_last());
        assert((a + b).drop_last() =~= a + b.drop_last());
    }
}

/// What a statement and the one after it become: a lock and its `try` become a
/// `synchronized` block, wherever at the end of the first the lock was taken.
pub open spec fn paired(x: StmtV, next: StmtV) -> (StmtV, StmtV) {
    if !(next is Try) {
        (x, next)
    } else {
        match x {
            StmtV::MonitorEnter(lock) => match synchronized(lock, next) {
                Some(s) => (empty_block(), s),
                None => (x, next),
            },
            _ => match trailing_taken(x) {
                (y, Some(lock)) => match synchronized(lock, next) {
                    Some(s) => (y, s),
                    None => (tail_tidied(x), next),
                },
                (y, None) => (y, next),
            },
        }
    }
}

/// The statements of a block with `synchronized` blocks rebuilt, from the front.
pub open spec fn rebuilt_rest(rest: Seq<StmtV>) -> Seq<StmtV>
    decreases stmts_size(rest), 0nat
    via rebuilt_rest_decreases
{
    if rest.len() == 0 {
        seq![]
    } else if rest.len() == 1 {
        seq![rebuilt(rest[0])]
    } else {
        let (x, next) = paired(rebuilt(rest[0]), rest[1]);
        seq![x] + rebuilt_rest(seq![next] + rest.skip(2))
    }
}

/// The statements of a block, flattened, rebuilt and without empty blocks.
pub open spec fn rebuilt_list(v: Seq<StmtV>) -> Seq<StmtV>
    decreases stmts_size(v), 1nat
    via rebuilt_list_decreases
{
    nonempty(rebuilt_rest(flat(v)))
}

#[via_fn]
proof fn rebuilt_list_decreases(v: Seq<StmtV>) {
    lemma_flat_size(v);
}

/// What is left to do gets smaller.
proof fn lemma_rest_size(rest: Seq<StmtV>, x: StmtV)
    requires
        rest.len() >= 2,
    ensures
        stmts_size(seq![paired(x, rest[1]).1] + rest.skip(2)) < stmts_size(rest),
        stmt_size(rest[0]) < stmts_size(rest),
{
    let next = paired(x, rest[1]).1;
    assert(stmt_size(next) <= stmt_size(rest[1])) by {
        match x {
            StmtV::MonitorEnter(lock) => {
                lemma_synchronized_size(lock, rest[1]);
            },
            _ => {
                if let Some(lock) = trailing_taken(x).1 {
                    lemma_synchronized_size(lock, rest[1]);
                }
            },
        }
    }
    lemma_stmts_size_first(rest);
    lemma_stmts_size_first(rest.skip(1));
    assert(rest.skip(1).skip(1) =~= rest.skip(2));
    let after = seq![next] + rest.skip(2);
    lemma_stmts_size_first(after);
    assert(after.skip(1) =~= rest.skip(2));
}

#[via_fn]
proof fn rebuilt_rest_decreases(rest: Seq<StmtV>) {
    if rest.len() == 1 {
        lemma_stmts_size(rest, 0);
    } else if rest.len() > 1 {
        lemma_stmts_size(rest, 0);
        assert forall|x: StmtV|
            stmts_size(seq![(#[trigger] paired(x, rest[1])).1] + rest.skip(2)) < stmts_size(
                rest
            ) by {
            lemma_rest_size(rest, x);
        }
    }
}

/// `s` with `synchronized` blocks rebuilt from locks and the `try`s after them.
pub open spec fn rebuilt(s: StmtV) -> StmtV
    decreases stmt_size(s), 0nat,
{
    match s {
        StmtV::Block(items) => StmtV::Block(rebuilt_list(items)),
        StmtV::If { cond, then_stmt, else_stmt } => StmtV::If {
            cond,
            then_stmt: Box::new(rebuilt(*then_stmt)),
            else_stmt: rebuilt_opt(else_stmt),
        },
        StmtV::While { cond, body } => StmtV::While { cond, body: Box::new(rebuilt(*body)) },
        StmtV::DoWhile { body, cond } => StmtV::DoWhile { body: Box::new(rebuilt(*body)), cond },
        StmtV::For { init, cond, update, body } => StmtV::For {
            init,
            cond,
            update,
            body: Box::new(rebuilt(*body)),
        },
        StmtV::ForEach { var, iterable, is_array, body } => StmtV::ForEach {
            var,
            iterable,
            is_array,
            body: Box::new(rebuilt(*body)),
        },
        StmtV::Switch { selector, cases, default, on_string } => StmtV::Switch {
            selector,
            cases: rebuilt_cases(cases),
            default: rebuilt_opt(default),
            on_string,
        },
        StmtV::Try { body, catches, finally } => StmtV::Try {
            body: Box::new(rebuilt(*body)),
            catches: rebuilt_catches(catches),
            finally: rebuilt_opt(finally),
        },
        StmtV::TryWithResources { resources, body, catches, finally } => StmtV::TryWithResources {
            resources: rebuilt_seq(resources),
            body: Box::new(rebuilt(*body)),
            catches: rebuilt_catches(catches),
            finally: rebuilt_opt(finally),
        },
        StmtV::Synchronized { lock, body } => StmtV::Synchronized {
            lock,
            body: Box::new(rebuilt(*body)),
        },
        StmtV::Labeled { label, body } => StmtV::Labeled { label, body: Box::new(rebuilt(*body)) },
        _ => s,
    }
}

/// [`rebuilt`] where there is a value.
pub open spec fn rebuilt_opt(o: Option<Box<StmtV>>) -> Option<Box<StmtV>>
    decreases opt_stmt_size(o), 0nat,
{
    match o {
        Some(x) => Some(Box::new(rebuilt(*x))),
        None => None,
    }
}

/// [`rebuilt`] over a list.
pub open spec fn rebuilt_seq(v: Seq<StmtV>) -> Seq<StmtV>
    decreases stmts_size(v), 0nat,
{
    if v.len() == 0 {
        seq![]
    } else {
        rebuilt_seq(v.drop_last()).push(rebuilt(v.last()))
    }
}

/// [`rebuilt`] inside a switch arm.
pub open spec fn rebuilt_case(c: CaseGroupV) -> CaseGroupV
    decreases case_size(c), 0nat,
{
    CaseGroupV { body: rebuilt_list(c.body), ..c }
}

/// [`rebuilt`] over a list.
pub open spec fn rebuilt_cases(v: Seq<CaseGroupV>) -> Seq<CaseGroupV>
    decreases cases_size(v), 0nat,
{
    if v.len() == 0 {
        seq![]
    } else {
        rebuilt_cases(v.drop_last()).push(rebuilt_case(v.last()))
    }
}

/// [`rebuilt`] inside a catch clause.
pub open spec fn rebuilt_catch(c: CatchV) -> CatchV
    decreases catch_size(c), 0nat,
{
    CatchV { body: Box::new(rebuilt(*c.body)), ..c }
}

/// [`rebuilt`] over a list.
pub open spec fn rebuilt_catches(v: Seq<CatchV>) -> Seq<CatchV>
    decreases catches_size(v), 0nat,
{
    if v.len() == 0 {
        seq![]
    } else {
        rebuilt_catches(v.drop_last()).push(rebuilt_catch(v.last()))
    }
}

/// Rebuilds `synchronized` blocks from a lock and the `try` that unlocks.
pub fn reconstruct_synchronized(s: &mut Stmt)
    ensures
        final(s)@ == rebuilt(old(s)@),
    decreases stmt_size(old(s)@), 0nat,
{
    match s {
        Stmt::Block(items) => rebuild_list(items),
        Stmt::If { then_stmt, else_stmt, .. } => {
            reconstruct_synchronized(then_stmt);
            reconstruct_synchronized_opt(else_stmt);
        },
        Stmt::While { body, .. } => { reconstruct_synchronized(body); },
        Stmt::DoWhile { body, .. } => { reconstruct_synchronized(body); },
        Stmt::For { body, .. } => { reconstruct_synchronized(body); },
        Stmt::ForEach { body, .. } => { reconstruct_synchronized(body); },
        Stmt::Switch { cases, default, .. } => {
            reconstruct_synchronized_cases(cases);
            reconstruct_synchronized_opt(default);
        },
        Stmt::Try { body, catches, finally } => {
            reconstruct_synchronized(body);
            reconstruct_synchronized_catches(catches);
            reconstruct_synchronized_opt(finally);
        },
        Stmt::TryWithResources { resources, body, catches, finally } => {
            reconstruct_synchronized_vec(resources);
            reconstruct_synchronized(body);
            reconstruct_synchronized_catches(catches);
            reconstruct_synchronized_opt(finally);
        },
        Stmt::Synchronized { body, .. } => { reconstruct_synchronized(body); },
        Stmt::Labeled { body, .. } => { reconstruct_synchronized(body); },
        _ => {},
    }
}

/// `reconstruct_synchronized` where there is a value.
pub fn reconstruct_synchronized_opt(o: &mut Option<Box<Stmt>>)
    ensures
        opt_stmt(*final(o)) == rebuilt_opt(opt_stmt(*old(o))),
    decreases opt_stmt_size(opt_stmt(*old(o))), 0nat,
{
    if let Some(x) = o {
        reconstruct_synchronized(x);
    }
}

/// `reconstruct_synchronized` over a list.
#[verifier::loop_isolation(false)]
pub fn reconstruct_synchronized_vec(v: &mut Vec<Stmt>)
    ensures
        stmts(final(v)@) == rebuilt_seq(stmts(old(v)@)),
    decreases stmts_size(stmts(old(v)@)), 0nat,
{
    let ghost all = stmts(v@);
    let mut i: usize = 0;
    assert(stmts(v@.take(0)) =~= seq![]);
    while i < v.len()
        invariant
            i <= v.len(),
            v.len() == old(v).len(),
            stmts(v@.take(i as int)) == rebuilt_seq(all.take(i as int)),
            forall|j: int| i <= j < v.len() ==> #[trigger] v@[j] == old(v)@[j],
        decreases v.len() - i,
    {
        let ghost before = stmts(v@.take(i as int));
        assert(all.take(i + 1).drop_last() =~= all.take(i as int));
        assert(all.take(i + 1).last() == v@[i as int]@);
        proof {
            lemma_stmts_size(stmts(old(v)@), i as int);
        }
        reconstruct_synchronized(&mut v[i]);
        i += 1;
        assert(stmts(v@.take(i as int)) =~= before.push(v@[i - 1]@));
    }
    assert(v@.take(i as int) =~= v@);
    assert(all.take(i as int) =~= all);
}

/// `reconstruct_synchronized` inside a switch arm.
pub fn reconstruct_synchronized_case(c: &mut CaseGroup)
    ensures
        final(c)@ == rebuilt_case(old(c)@),
    decreases case_size(old(c)@), 0nat,
{
    rebuild_list(&mut c.body);
}

/// `reconstruct_synchronized` over a list.
#[verifier::loop_isolation(false)]
pub fn reconstruct_synchronized_cases(v: &mut Vec<CaseGroup>)
    ensures
        case_groups(final(v)@) == rebuilt_cases(case_groups(old(v)@)),
    decreases cases_size(case_groups(old(v)@)), 0nat,
{
    let ghost all = case_groups(v@);
    let mut i: usize = 0;
    assert(case_groups(v@.take(0)) =~= seq![]);
    while i < v.len()
        invariant
            i <= v.len(),
            v.len() == old(v).len(),
            case_groups(v@.take(i as int)) == rebuilt_cases(all.take(i as int)),
            forall|j: int| i <= j < v.len() ==> #[trigger] v@[j] == old(v)@[j],
        decreases v.len() - i,
    {
        let ghost before = case_groups(v@.take(i as int));
        assert(all.take(i + 1).drop_last() =~= all.take(i as int));
        assert(all.take(i + 1).last() == v@[i as int]@);
        proof {
            lemma_cases_size(case_groups(old(v)@), i as int);
        }
        reconstruct_synchronized_case(&mut v[i]);
        i += 1;
        assert(case_groups(v@.take(i as int)) =~= before.push(v@[i - 1]@));
    }
    assert(v@.take(i as int) =~= v@);
    assert(all.take(i as int) =~= all);
}

/// `reconstruct_synchronized` inside a catch clause.
pub fn reconstruct_synchronized_catch(c: &mut Catch)
    ensures
        final(c)@ == rebuilt_catch(old(c)@),
    decreases catch_size(old(c)@), 0nat,
{
    reconstruct_synchronized(&mut c.body);
}

/// `reconstruct_synchronized` over a list.
#[verifier::loop_isolation(false)]
pub fn reconstruct_synchronized_catches(v: &mut Vec<Catch>)
    ensures
        catch_list(final(v)@) == rebuilt_catches(catch_list(old(v)@)),
    decreases catches_size(catch_list(old(v)@)), 0nat,
{
    let ghost all = catch_list(v@);
    let mut i: usize = 0;
    assert(catch_list(v@.take(0)) =~= seq![]);
    while i < v.len()
        invariant
            i <= v.len(),
            v.len() == old(v).len(),
            catch_list(v@.take(i as int)) == rebuilt_catches(all.take(i as int)),
            forall|j: int| i <= j < v.len() ==> #[trigger] v@[j] == old(v)@[j],
        decreases v.len() - i,
    {
        let ghost before = catch_list(v@.take(i as int));
        assert(all.take(i + 1).drop_last() =~= all.take(i as int));
        assert(all.take(i + 1).last() == v@[i as int]@);
        proof {
            lemma_catches_size(catch_list(old(v)@), i as int);
        }
        reconstruct_synchronized_catch(&mut v[i]);
        i += 1;
        assert(catch_list(v@.take(i as int)) =~= before.push(v@[i - 1]@));
    }
    assert(v@.take(i as int) =~= v@);
    assert(all.take(i as int) =~= all);
}

/// The `synchronized` block that a lock and the `try` after it stand for.
fn try_make_synchronized(lock: &Expr, t: &Stmt) -> (r: Option<Stmt>)
    ensures
        match r {
            Some(s) => synchronized(lock@, t@) == Some(s@),
            None => synchronized(lock@, t@) is None,
        },
{
    proof {
        reveal_with_fuel(Stmt::view, 2);
        reveal_with_fuel(opt_stmt, 2);
    }
    let (body, catches, finally) = match t {
        Stmt::Try { body, catches, finally } => (body, catches, finally),
        _ => return None,
    };
    assert(catch_list(catches@).len() == catches@.len());
    if catches.len() > 0 {
        assert(catch_list(catches@)[0] == catches@[0]@);
        assert(strs(catches@[0].exc@).len() == catches@[0].exc@.len());
    }
    let fits = match finally {
        None => catches.len() == 1 && catches[0].exc.len() == 0 && does_unlock(&catches[0].body),
        Some(f) => does_unlock(f) && (catches.len() == 0 || (catches.len() == 1
            && catches[0].exc.len() == 0 && leaves_pass(&catches[0].body, LeafTest::Unlocking))),
    };
    if !fits {
        return None;
    }
    let mut list = into_vec((**body).clone());
    drop_exits(&mut list);
    Some(Stmt::Synchronized { lock: lock.clone(), body: Box::new(Stmt::Block(list)) })
}

/// Whether `s` unlocks and does nothing else of note.
fn does_unlock(s: &Stmt) -> (r: bool)
    ensures
        r == unlocks(s@),
{
    !leaves_pass(s, LeafTest::NotExit) && leaves_pass(s, LeafTest::Unlocking)
}

/// Whether a statement is anything but an unlock.
fn keep_other(s: &mut Stmt) -> (keep: bool)
    ensures
        *final(s) == *old(s),
        keep == !(old(s)@ is MonitorExit),
{
    !matches!(s, Stmt::MonitorExit(_))
}

/// Drops the unlock statements of `v`.
#[verifier::loop_isolation(false)]
pub fn drop_exits(v: &mut Vec<Stmt>)
    ensures
        stmts(final(v)@) == without_exits(stmts(old(v)@)),
{
    let mut i: usize = 0;
    let ghost mut k: int = 0;
    while i < v.len()
        invariant
            0 <= i <= k <= old(v).len(),
            v.len() - i == old(v).len() - k,
            forall|j: int| i <= j < v.len() ==> #[trigger] v@[j] == old(v)@[j - i + k],
            stmts(v@.take(i as int)) == without_exits(stmts(old(v)@).take(k)),
        decreases v.len() - i,
    {
        let ghost before = stmts(v@.take(i as int));
        let ghost done = stmts(old(v)@).take(k + 1);
        assert(done.drop_last() =~= stmts(old(v)@).take(k));
        assert(done.last() == v@[i as int]@);
        if keep_other(&mut v[i]) {
            i += 1;
            assert(stmts(v@.take(i as int)) =~= before.push(v@[i - 1]@));
        } else {
            let ghost whole = v@;
            v.remove(i);
            assert(v@.take(i as int) =~= whole.take(i as int));
            assert(stmts(v@.take(i as int)) =~= before);
        }
        proof {
            k = k + 1;
            assert(stmts(v@.take(i as int)) =~= without_exits(done));
        }
    }
    assert(v@.take(i as int) =~= v@);
    assert(stmts(old(v)@).take(k) =~= stmts(old(v)@));
}

/// Pairs a statement with the one after it.
fn pair_up(v: &mut Vec<Stmt>, i: usize)
    requires
        i + 1 < old(v).len(),
    ensures
        final(v).len() == old(v).len(),
        (final(v)@[i as int]@, final(v)@[i + 1]@) == paired(old(v)@[i as int]@, old(v)@[i + 1]@),
        forall|j: int|
            0 <= j < old(v).len() && j != i && j != i + 1 ==> #[trigger] final(v)@[j] == old(v)@[j],
{
    if !matches!(&v[i + 1], Stmt::Try { .. }) {
        return ;
    }
    let direct = match &v[i] {
        Stmt::MonitorEnter(lock) => Some(try_make_synchronized(lock, &v[i + 1])),
        _ => None,
    };
    match direct {
        Some(r) => {
            if let Some(s) = r {
                v[i] = no_stmt();
                v[i + 1] = s;
            }
        },
        None => {
            proof {
                law_restore_undoes_take(v@[i as int]@);
            }
            let place = find_trailing_place(&v[i]);
            if let Some(lock) = take_trailing_monitor(&mut v[i]) {
                match try_make_synchronized(&lock, &v[i + 1]) {
                    Some(s) => {
                        v[i + 1] = s;
                    },
                    None => restore_trailing_monitor(&mut v[i], Stmt::MonitorEnter(lock), &place),
                }
            }
        },
    }
}

/// Rebuilds the statements of a block.
fn rebuild_list(v: &mut Vec<Stmt>)
    ensures
        stmts(final(v)@) == rebuilt_list(stmts(old(v)@)),
    decreases stmts_size(stmts(old(v)@)), 1nat,
{
    proof {
        lemma_flat_size(stmts(v@));
    }
    flatten_vec(v);
    rebuild_rest(v);
    drop_empty(v);
}

/// Rebuilds the statements of a flat list, front to back.
#[verifier::loop_isolation(false)]
#[verifier::spinoff_prover]
fn rebuild_rest(v: &mut Vec<Stmt>)
    ensures
        stmts(final(v)@) == rebuilt_rest(stmts(old(v)@)),
    decreases stmts_size(stmts(old(v)@)), 0nat,
{
    let ghost goal = rebuilt_rest(stmts(v@));
    let mut i: usize = 0;
    assert(v@.skip(0) =~= v@);
    assert(stmts(v@.take(0)) + goal =~= goal);
    while i < v.len()
        invariant
            i <= v.len(),
            stmts(v@.take(i as int)) + rebuilt_rest(stmts(v@.skip(i as int))) == goal,
            stmts_size(stmts(v@.skip(i as int))) <= stmts_size(stmts(old(v)@)),
        decreases v.len() - i,
    {
        let ghost rest = stmts(v@.skip(i as int));
        let ghost done = stmts(v@.take(i as int));
        let ghost before = v@;
        assert(rest[0] == v@[i as int]@);
        proof {
            lemma_stmts_size(rest, 0);
        }
        reconstruct_synchronized(&mut v[i]);
        let ghost x = v@[i as int]@;
        if i + 1 < v.len() {
            assert(rest[1] == v@[i + 1]@);
            proof {
                lemma_rest_size(rest, x);
            }
            pair_up(v, i);
            assert(stmts(v@.skip(i + 1)) =~= seq![paired(x, rest[1]).1] + rest.skip(2)) by {
                assert forall|j: int|
                    i + 2 <= j < v.len() implies #[trigger] v@[j] == before[j] by {}
            }
            assert(stmts(v@.take(i + 1)) =~= done.push(paired(x, rest[1]).0)) by {
                assert forall|j: int| 0 <= j < i implies #[trigger] v@[j] == before[j] by {}
            }
            assert(done + (seq![paired(x, rest[1]).0] + rebuilt_rest(stmts(v@.skip(i + 1))))
                =~= done.push(paired(x, rest[1]).0) + rebuilt_rest(stmts(v@.skip(i + 1))));
        } else {
            assert(rest.len() == 1);
            assert(stmts(v@.take(i + 1)) =~= done.push(x));
            assert(stmts(v@.skip(i + 1)) =~= seq![]);
            assert(done + seq![x] =~= done.push(x) + Seq::<StmtV>::empty());
        }
        i += 1;
    }
    assert(v@.take(i as int) =~= v@);
    assert(stmts(v@.skip(i as int)) =~= seq![]);
    assert(stmts(v@) + Seq::<StmtV>::empty() =~= stmts(v@));
}

// ---------------------------------------------------------------------
// Leftover monitor statements.

/// `s` holds a lock (`want`) or unlock (not `want`) statement.
pub open spec fn has_kind(s: StmtV, want: bool) -> bool
    decreases s,
{
    match s {
        StmtV::Block(items) => has_kind_seq(items, want),
        StmtV::If { then_stmt, else_stmt, .. } => has_kind(*then_stmt, want)
            || has_kind_opt(else_stmt, want),
        StmtV::While { body, .. } => has_kind(*body, want),
        StmtV::DoWhile { body, .. } => has_kind(*body, want),
        StmtV::For { init, body, .. } => has_kind_seq(init, want) || has_kind(*body, want),
        StmtV::ForEach { body, .. } => has_kind(*body, want),
        StmtV::Switch { cases, default, .. } => has_kind_cases(cases, want)
            || has_kind_opt(default, want),
        StmtV::Try { body, catches, finally } => has_kind(*body, want)
            || has_kind_catches(catches, want) || has_kind_opt(finally, want),
        StmtV::TryWithResources { resources, body, catches, finally } => has_kind_seq(
            resources,
            want,
        )
            || has_kind(*body, want) || has_kind_catches(catches, want)
            || has_kind_opt(finally, want),
        StmtV::Synchronized { body, .. } => has_kind(*body, want),
        StmtV::MonitorEnter(_) => want,
        StmtV::MonitorExit(_) => !want,
        StmtV::Labeled { body, .. } => has_kind(*body, want),
        _ => false,
    }
}

/// [`has_kind`] where there is a value.
pub open spec fn has_kind_opt(o: Option<Box<StmtV>>, want: bool) -> bool
    decreases o,
{
    match o {
        Some(x) => has_kind(*x, want),
        None => false,
    }
}

/// [`has_kind`] over a list.
pub open spec fn has_kind_seq(l: Seq<StmtV>, want: bool) -> bool
    decreases l,
{
    exists|i: int| 0 <= i < l.len() && has_kind(#[trigger] l[i], want)
}

/// [`has_kind`] inside a switch arm.
pub open spec fn has_kind_case(c: CaseGroupV, want: bool) -> bool
    decreases c,
{
    has_kind_seq(c.body, want)
}

/// [`has_kind`] over a list.
pub open spec fn has_kind_cases(l: Seq<CaseGroupV>, want: bool) -> bool
    decreases l,
{
    exists|i: int| 0 <= i < l.len() && has_kind_case(#[trigger] l[i], want)
}

/// [`has_kind`] inside a catch clause.
pub open spec fn has_kind_catch(c: CatchV, want: bool) -> bool
    decreases c,
{
    has_kind(*c.body, want)
}

/// [`has_kind`] over a list.
pub open spec fn has_kind_catches(l: Seq<CatchV>, want: bool) -> bool
    decreases l,
{
    exists|i: int| 0 <= i < l.len() && has_kind_catch(#[trigger] l[i], want)
}

/// Whether `s` holds a lock (`want`) or unlock (not `want`) statement.
pub fn stmt_has_kind(s: &Stmt, want: bool) -> (r: bool)
    ensures
        r == has_kind(s@, want),
    decreases s,
{
    match s {
        Stmt::Block(items) => stmt_has_kind_vec(items, want),
        Stmt::If { then_stmt, else_stmt, .. } => stmt_has_kind(then_stmt, want)
            || stmt_has_kind_opt(else_stmt, want),
        Stmt::While { body, .. } => stmt_has_kind(body, want),
        Stmt::DoWhile { body, .. } => stmt_has_kind(body, want),
        Stmt::For { init, body, .. } => stmt_has_kind_vec(init, want) || stmt_has_kind(body, want),
        Stmt::ForEach { body, .. } => stmt_has_kind(body, want),
        Stmt::Switch { cases, default, .. } => stmt_has_kind_cases(cases, want)
            || stmt_has_kind_opt(default, want),
        Stmt::Try { body, catches, finally } => stmt_has_kind(body, want)
            || stmt_has_kind_catches(catches, want) || stmt_has_kind_opt(finally, want),
        Stmt::TryWithResources { resources, body, catches, finally } => stmt_has_kind_vec(
            resources,
            want,
        )
            || stmt_has_kind(body, want) || stmt_has_kind_catches(catches, want)
            || stmt_has_kind_opt(finally, want),
        Stmt::Synchronized { body, .. } => stmt_has_kind(body, want),
        Stmt::MonitorEnter(_) => want,
        Stmt::MonitorExit(_) => !want,
        Stmt::Labeled { body, .. } => stmt_has_kind(body, want),
        _ => false,
    }
}

/// `stmt_has_kind` where there is a value.
pub fn stmt_has_kind_opt(o: &Option<Box<Stmt>>, want: bool) -> (r: bool)
    ensures
        r == has_kind_opt(opt_stmt(*o), want),
    decreases o,
{
    match o {
        Some(x) => stmt_has_kind(x, want),
        None => false,
    }
}

/// `stmt_has_kind` over a list.
#[verifier::loop_isolation(false)]
pub fn stmt_has_kind_vec(l: &Vec<Stmt>, want: bool) -> (r: bool)
    ensures
        r == has_kind_seq(stmts(l@), want),
    decreases l,
{
    let mut i: usize = 0;
    while i < l.len()
        invariant
            i <= l.len(),
            forall|j: int| 0 <= j < i ==> !(has_kind(#[trigger] stmts(l@)[j], want)),
        decreases l.len() - i,
    {
        assert(decreases_to!(l => l@[i as int]));
        assert(stmts(l@)[i as int] == l@[i as int]@);
        if stmt_has_kind(&l[i], want) {
            return true;
        }
        i += 1;
    }
    false
}

/// `stmt_has_kind` inside a switch arm.
pub fn stmt_has_kind_case(c: &CaseGroup, want: bool) -> (r: bool)
    ensures
        r == has_kind_case(c@, want),
    decreases c,
{
    stmt_has_kind_vec(&c.body, want)
}

/// `stmt_has_kind` over a list.
#[verifier::loop_isolation(false)]
pub fn stmt_has_kind_cases(l: &Vec<CaseGroup>, want: bool) -> (r: bool)
    ensures
        r == has_kind_cases(case_groups(l@), want),
    decreases l,
{
    let mut i: usize = 0;
    while i < l.len()
        invariant
            i <= l.len(),
            forall|j: int| 0 <= j < i ==> !(has_kind_case(#[trigger] case_groups(l@)[j], want)),
        decreases l.len() - i,
    {
        assert(decreases_to!(l => l@[i as int]));
        assert(case_groups(l@)[i as int] == l@[i as int]@);
        if stmt_has_kind_case(&l[i], want) {
            return true;
        }
        i += 1;
    }
    false
}

/// `stmt_has_kind` inside a catch clause.
pub fn stmt_has_kind_catch(c: &Catch, want: bool) -> (r: bool)
    ensures
        r == has_kind_catch(c@, want),
    decreases c,
{
    stmt_has_kind(&c.body, want)
}

/// `stmt_has_kind` over a list.
#[verifier::loop_isolation(false)]
pub fn stmt_has_kind_catches(l: &Vec<Catch>, want: bool) -> (r: bool)
    ensures
        r == has_kind_catches(catch_list(l@), want),
    decreases l,
{
    let mut i: usize = 0;
    while i < l.len()
        invariant
            i <= l.len(),
            forall|j: int| 0 <= j < i ==> !(has_kind_catch(#[trigger] catch_list(l@)[j], want)),
        decreases l.len() - i,
    {
        assert(decreases_to!(l => l@[i as int]));
        assert(catch_list(l@)[i as int] == l@[i as int]@);
        if stmt_has_kind_catch(&l[i], want) {
            return true;
        }
        i += 1;
    }
    false
}

/// `s` with its lock (`enters`) or unlock (not `enters`) statements emptied.
pub open spec fn kind_stripped(s: StmtV, enters: bool) -> StmtV
    decreases s,
{
    match s {
        StmtV::Block(items) => StmtV::Block(kind_stripped_seq(items, enters)),
        StmtV::If { cond, then_stmt, else_stmt } => StmtV::If {
            cond,
            then_stmt: Box::new(kind_stripped(*then_stmt, enters)),
            else_stmt: kind_stripped_opt(else_stmt, enters),
        },
        StmtV::While { cond, body } => StmtV::While {
            cond,
            body: Box::new(kind_stripped(*body, enters)),
        },
        StmtV::DoWhile { body, cond } => StmtV::DoWhile {
            body: Box::new(kind_stripped(*body, enters)),
            cond,
        },
        StmtV::For { init, cond, update, body } => StmtV::For {
            init: kind_stripped_seq(init, enters),
            cond,
            update,
            body: Box::new(kind_stripped(*body, enters)),
        },
        StmtV::ForEach { var, iterable, is_array, body } => StmtV::ForEach {
            var,
            iterable,
            is_array,
            body: Box::new(kind_stripped(*body, enters)),
        },
        StmtV::Switch { selector, cases, default, on_string } => StmtV::Switch {
            selector,
            cases: kind_stripped_cases(cases, enters),
            default: kind_stripped_opt(default, enters),
            on_string,
        },
        StmtV::Try { body, catches, finally } => StmtV::Try {
            body: Box::new(kind_stripped(*body, enters)),
            catches: kind_stripped_catches(catches, enters),
            finally: kind_stripped_opt(finally, enters),
        },
        StmtV::TryWithResources { resources, body, catches, finally } => StmtV::TryWithResources {
            resources: kind_stripped_seq(resources, enters),
            body: Box::new(kind_stripped(*body, enters)),
            catches: kind_stripped_catches(catches, enters),
            finally: kind_stripped_opt(finally, enters),
        },
        StmtV::Synchronized { lock, body } => StmtV::Synchronized {
            lock,
            body: Box::new(kind_stripped(*body, enters)),
        },
        StmtV::MonitorEnter(_) => if enters { empty_block() } else { s },
        StmtV::MonitorExit(_) => if enters { s } else { empty_block() },
        StmtV::Labeled { label, body } => StmtV::Labeled {
            label,
            body: Box::new(kind_stripped(*body, enters)),
        },
        _ => s,
    }
}

/// [`kind_stripped`] where there is a value.
pub open spec fn kind_stripped_opt(o: Option<Box<StmtV>>, enters: bool) -> Option<Box<StmtV>>
    decreases o,
{
    match o {
        Some(x) => Some(Box::new(kind_stripped(*x, enters))),
        None => None,
    }
}

/// [`kind_stripped`] over a list.
pub open spec fn kind_stripped_seq(v: Seq<StmtV>, enters: bool) -> Seq<StmtV>
    decreases v,
{
    Seq::new(
        v.len(),
        |i: int| if 0 <= i < v.len() { kind_stripped(v[i], enters) } else { arbitrary() },
    )
}

/// [`kind_stripped`] inside a switch arm.
pub open spec fn kind_stripped_case(c: CaseGroupV, enters: bool) -> CaseGroupV
    decreases c,
{
    CaseGroupV { body: kind_stripped_seq(c.body, enters), ..c }
}

/// [`kind_stripped`] over a list.
pub open spec fn kind_stripped_cases(v: Seq<CaseGroupV>, enters: bool) -> Seq<CaseGroupV>
    decreases v,
{
    Seq::new(
        v.len(),
        |i: int| if 0 <= i < v.len() { kind_stripped_case(v[i], enters) } else { arbitrary() },
    )
}

/// [`kind_stripped`] inside a catch clause.
pub open spec fn kind_stripped_catch(c: CatchV, enters: bool) -> CatchV
    decreases c,
{
    CatchV { body: Box::new(kind_stripped(*c.body, enters)), ..c }
}

/// [`kind_stripped`] over a list.
pub open spec fn kind_stripped_catches(v: Seq<CatchV>, enters: bool) -> Seq<CatchV>
    decreases v,
{
    Seq::new(
        v.len(),
        |i: int| if 0 <= i < v.len() { kind_stripped_catch(v[i], enters) } else { arbitrary() },
    )
}

/// Empties the lock (`enters`) or unlock (not `enters`) statements in `s`.
pub fn strip_kind(s: &mut Stmt, enters: bool)
    ensures
        final(s)@ == kind_stripped(old(s)@, enters),
    decreases *old(s),
{
    match s {
        Stmt::Block(items) => { strip_kind_vec(items, enters); },
        Stmt::If { then_stmt, else_stmt, .. } => {
            strip_kind(then_stmt, enters);
            strip_kind_opt(else_stmt, enters);
        },
        Stmt::While { body, .. } => { strip_kind(body, enters); },
        Stmt::DoWhile { body, .. } => { strip_kind(body, enters); },
        Stmt::For { init, body, .. } => { strip_kind_vec(init, enters); strip_kind(body, enters); },
        Stmt::ForEach { body, .. } => { strip_kind(body, enters); },
        Stmt::Switch { cases, default, .. } => {
            strip_kind_cases(cases, enters);
            strip_kind_opt(default, enters);
        },
        Stmt::Try { body, catches, finally } => {
            strip_kind(body, enters);
            strip_kind_catches(catches, enters);
            strip_kind_opt(finally, enters);
        },
        Stmt::TryWithResources { resources, body, catches, finally } => {
            strip_kind_vec(resources, enters);
            strip_kind(body, enters);
            strip_kind_catches(catches, enters);
            strip_kind_opt(finally, enters);
        },
        Stmt::Synchronized { body, .. } => { strip_kind(body, enters); },
        Stmt::MonitorEnter(_) => { if enters { *s = no_stmt(); } },
        Stmt::MonitorExit(_) => { if !enters { *s = no_stmt(); } },
        Stmt::Labeled { body, .. } => { strip_kind(body, enters); },
        _ => {},
    }
}

/// `strip_kind` where there is a value.
pub fn strip_kind_opt(o: &mut Option<Box<Stmt>>, enters: bool)
    ensures
        opt_stmt(*final(o)) == kind_stripped_opt(opt_stmt(*old(o)), enters),
    decreases *old(o),
{
    if let Some(x) = o {
        strip_kind(x, enters);
    }
}

/// `strip_kind` over a list.
#[verifier::loop_isolation(false)]
pub fn strip_kind_vec(v: &mut Vec<Stmt>, enters: bool)
    ensures
        stmts(final(v)@) == kind_stripped_seq(stmts(old(v)@), enters),
    decreases *old(v),
{
    let mut i: usize = 0;
    while i < v.len()
        invariant
            i <= v.len(),
            v.len() == old(v).len(),
            forall|j: int| 0 <= j < i ==> (#[trigger] v@[j])@ == kind_stripped(old(v)@[j]@, enters),
            forall|j: int| i <= j < v.len() ==> #[trigger] v@[j] == old(v)@[j],
        decreases v.len() - i,
    {
        assert(decreases_to!(*old(v) => v@[i as int]));
        strip_kind(&mut v[i], enters);
        i += 1;
    }
    assert(stmts(v@) =~= kind_stripped_seq(stmts(old(v)@), enters));
}

/// `strip_kind` inside a switch arm.
pub fn strip_kind_case(c: &mut CaseGroup, enters: bool)
    ensures
        final(c)@ == kind_stripped_case(old(c)@, enters),
    decreases *old(c),
{
    strip_kind_vec(&mut c.body, enters);
}

/// `strip_kind` over a list.
#[verifier::loop_isolation(false)]
pub fn strip_kind_cases(v: &mut Vec<CaseGroup>, enters: bool)
    ensures
        case_groups(final(v)@) == kind_stripped_cases(case_groups(old(v)@), enters),
    decreases *old(v),
{
    let mut i: usize = 0;
    while i < v.len()
        invariant
            i <= v.len(),
            v.len() == old(v).len(),
            forall|j: int|
                0 <= j < i ==> (#[trigger] v@[j])@ == kind_stripped_case(old(v)@[j]@, enters),
            forall|j: int| i <= j < v.len() ==> #[trigger] v@[j] == old(v)@[j],
        decreases v.len() - i,
    {
        assert(decreases_to!(*old(v) => v@[i as int]));
        strip_kind_case(&mut v[i], enters);
        i += 1;
    }
    assert(case_groups(v@) =~= kind_stripped_cases(case_groups(old(v)@), enters));
}

/// `strip_kind` inside a catch clause.
pub fn strip_kind_catch(c: &mut Catch, enters: bool)
    ensures
        final(c)@ == kind_stripped_catch(old(c)@, enters),
    decreases *old(c),
{
    strip_kind(&mut c.body, enters);
}

/// `strip_kind` over a list.
#[verifier::loop_isolation(false)]
pub fn strip_kind_catches(v: &mut Vec<Catch>, enters: bool)
    ensures
        catch_list(final(v)@) == kind_stripped_catches(catch_list(old(v)@), enters),
    decreases *old(v),
{
    let mut i: usize = 0;
    while i < v.len()
        invariant
            i <= v.len(),
            v.len() == old(v).len(),
            forall|j: int|
                0 <= j < i ==> (#[trigger] v@[j])@ == kind_stripped_catch(old(v)@[j]@, enters),
            forall|j: int| i <= j < v.len() ==> #[trigger] v@[j] == old(v)@[j],
        decreases v.len() - i,
    {
        assert(decreases_to!(*old(v) => v@[i as int]));
        strip_kind_catch(&mut v[i], enters);
        i += 1;
    }
    assert(catch_list(v@) =~= kind_stripped_catches(catch_list(old(v)@), enters));
}

/// `s` with all lock and unlock statements emptied.
pub open spec fn monitors_stripped(s: StmtV) -> StmtV
    decreases s,
{
    match s {
        StmtV::Block(items) => StmtV::Block(monitors_stripped_seq(items)),
        StmtV::If { cond, then_stmt, else_stmt } => StmtV::If {
            cond,
            then_stmt: Box::new(monitors_stripped(*then_stmt)),
            else_stmt: monitors_stripped_opt(else_stmt),
        },
        StmtV::While { cond, body } => StmtV::While {
            cond,
            body: Box::new(monitors_stripped(*body)),
        },
        StmtV::DoWhile { body, cond } => StmtV::DoWhile {
            body: Box::new(monitors_stripped(*body)),
            cond,
        },
        StmtV::For { init, cond, update, body } => StmtV::For {
            init: monitors_stripped_seq(init),
            cond,
            update,
            body: Box::new(monitors_stripped(*body)),
        },
        StmtV::ForEach { var, iterable, is_array, body } => StmtV::ForEach {
            var,
            iterable,
            is_array,
            body: Box::new(monitors_stripped(*body)),
        },
        StmtV::Switch { selector, cases, default, on_string } => StmtV::Switch {
            selector,
            cases: monitors_stripped_cases(cases),
            default: monitors_stripped_opt(default),
            on_string,
        },
        StmtV::Try { body, catches, finally } => StmtV::Try {
            body: Box::new(monitors_stripped(*body)),
            catches: monitors_stripped_catches(catches),
            finally: monitors_stripped_opt(finally),
        },
        StmtV::TryWithResources { resources, body, catches, finally } => StmtV::TryWithResources {
            resources: monitors_stripped_seq(resources),
            body: Box::new(monitors_stripped(*body)),
            catches: monitors_stripped_catches(catches),
            finally: monitors_stripped_opt(finally),
        },
        StmtV::Synchronized { lock, body } => StmtV::Synchronized {
            lock,
            body: Box::new(monitors_stripped(*body)),
        },
        StmtV::MonitorEnter(_) => empty_block(),
        StmtV::MonitorExit(_) => empty_block(),
        StmtV::Labeled { label, body } => StmtV::Labeled {
            label,
            body: Box::new(monitors_stripped(*body)),
        },
        _ => s,
    }
}

/// [`monitors_stripped`] where there is a value.
pub open spec fn monitors_stripped_opt(o: Option<Box<StmtV>>) -> Option<Box<StmtV>>
    decreases o,
{
    match o {
        Some(x) => Some(Box::new(monitors_stripped(*x))),
        None => None,
    }
}

/// [`monitors_stripped`] over a list.
pub open spec fn monitors_stripped_seq(v: Seq<StmtV>) -> Seq<StmtV>
    decreases v,
{
    Seq::new(v.len(), |i: int| if 0 <= i < v.len() { monitors_stripped(v[i]) } else { arbitrary() })
}

/// [`monitors_stripped`] inside a switch arm.
pub open spec fn monitors_stripped_case(c: CaseGroupV) -> CaseGroupV
    decreases c,
{
    CaseGroupV { body: monitors_stripped_seq(c.body), ..c }
}

/// [`monitors_stripped`] over a list.
pub open spec fn monitors_stripped_cases(v: Seq<CaseGroupV>) -> Seq<CaseGroupV>
    decreases v,
{
    Seq::new(
        v.len(),
        |i: int| if 0 <= i < v.len() { monitors_stripped_case(v[i]) } else { arbitrary() },
    )
}

/// [`monitors_stripped`] inside a catch clause.
pub open spec fn monitors_stripped_catch(c: CatchV) -> CatchV
    decreases c,
{
    CatchV { body: Box::new(monitors_stripped(*c.body)), ..c }
}

/// [`monitors_stripped`] over a list.
pub open spec fn monitors_stripped_catches(v: Seq<CatchV>) -> Seq<CatchV>
    decreases v,
{
    Seq::new(
        v.len(),
        |i: int| if 0 <= i < v.len() { monitors_stripped_catch(v[i]) } else { arbitrary() },
    )
}

/// Empties all lock and unlock statements in `s`.
pub fn strip_all_monitors(s: &mut Stmt)
    ensures
        final(s)@ == monitors_stripped(old(s)@),
    decreases *old(s),
{
    match s {
        Stmt::Block(items) => { strip_all_monitors_vec(items); },
        Stmt::If { then_stmt, else_stmt, .. } => {
            strip_all_monitors(then_stmt);
            strip_all_monitors_opt(else_stmt);
        },
        Stmt::While { body, .. } => { strip_all_monitors(body); },
        Stmt::DoWhile { body, .. } => { strip_all_monitors(body); },
        Stmt::For { init, body, .. } => { strip_all_monitors_vec(init); strip_all_monitors(body); },
        Stmt::ForEach { body, .. } => { strip_all_monitors(body); },
        Stmt::Switch { cases, default, .. } => {
            strip_all_monitors_cases(cases);
            strip_all_monitors_opt(default);
        },
        Stmt::Try { body, catches, finally } => {
            strip_all_monitors(body);
            strip_all_monitors_catches(catches);
            strip_all_monitors_opt(finally);
        },
        Stmt::TryWithResources { resources, body, catches, finally } => {
            strip_all_monitors_vec(resources);
            strip_all_monitors(body);
            strip_all_monitors_catches(catches);
            strip_all_monitors_opt(finally);
        },
        Stmt::Synchronized { body, .. } => { strip_all_monitors(body); },
        Stmt::MonitorEnter(_) => { *s = no_stmt(); },
        Stmt::MonitorExit(_) => { *s = no_stmt(); },
        Stmt::Labeled { body, .. } => { strip_all_monitors(body); },
        _ => {},
    }
}

/// `strip_all_monitors` where there is a value.
pub fn strip_all_monitors_opt(o: &mut Option<Box<Stmt>>)
    ensures
        opt_stmt(*final(o)) == monitors_stripped_opt(opt_stmt(*old(o))),
    decreases *old(o),
{
    if let Some(x) = o {
        strip_all_monitors(x);
    }
}

/// `strip_all_monitors` over a list.
#[verifier::loop_isolation(false)]
pub fn strip_all_monitors_vec(v: &mut Vec<Stmt>)
    ensures
        stmts(final(v)@) == monitors_stripped_seq(stmts(old(v)@)),
    decreases *old(v),
{
    let mut i: usize = 0;
    while i < v.len()
        invariant
            i <= v.len(),
            v.len() == old(v).len(),
            forall|j: int| 0 <= j < i ==> (#[trigger] v@[j])@ == monitors_stripped(old(v)@[j]@),
            forall|j: int| i <= j < v.len() ==> #[trigger] v@[j] == old(v)@[j],
        decreases v.len() - i,
    {
        assert(decreases_to!(*old(v) => v@[i as int]));
        strip_all_monitors(&mut v[i]);
        i += 1;
    }
    assert(stmts(v@) =~= monitors_stripped_seq(stmts(old(v)@)));
}

/// `strip_all_monitors` inside a switch arm.
pub fn strip_all_monitors_case(c: &mut CaseGroup)
    ensures
        final(c)@ == monitors_stripped_case(old(c)@),
    decreases *old(c),
{
    strip_all_monitors_vec(&mut c.body);
}

/// `strip_all_monitors` over a list.
#[verifier::loop_isolation(false)]
pub fn strip_all_monitors_cases(v: &mut Vec<CaseGroup>)
    ensures
        case_groups(final(v)@) == monitors_stripped_cases(case_groups(old(v)@)),
    decreases *old(v),
{
    let mut i: usize = 0;
    while i < v.len()
        invariant
            i <= v.len(),
            v.len() == old(v).len(),
            forall|j: int|
                0 <= j < i ==> (#[trigger] v@[j])@ == monitors_stripped_case(old(v)@[j]@),
            forall|j: int| i <= j < v.len() ==> #[trigger] v@[j] == old(v)@[j],
        decreases v.len() - i,
    {
        assert(decreases_to!(*old(v) => v@[i as int]));
        strip_all_monitors_case(&mut v[i]);
        i += 1;
    }
    assert(case_groups(v@) =~= monitors_stripped_cases(case_groups(old(v)@)));
}

/// `strip_all_monitors` inside a catch clause.
pub fn strip_all_monitors_catch(c: &mut Catch)
    ensures
        final(c)@ == monitors_stripped_catch(old(c)@),
    decreases *old(c),
{
    strip_all_monitors(&mut c.body);
}

/// `strip_all_monitors` over a list.
#[verifier::loop_isolation(false)]
pub fn strip_all_monitors_catches(v: &mut Vec<Catch>)
    ensures
        catch_list(final(v)@) == monitors_stripped_catches(catch_list(old(v)@)),
    decreases *old(v),
{
    let mut i: usize = 0;
    while i < v.len()
        invariant
            i <= v.len(),
            v.len() == old(v).len(),
            forall|j: int|
                0 <= j < i ==> (#[trigger] v@[j])@ == monitors_stripped_catch(old(v)@[j]@),
            forall|j: int| i <= j < v.len() ==> #[trigger] v@[j] == old(v)@[j],
        decreases v.len() - i,
    {
        assert(decreases_to!(*old(v) => v@[i as int]));
        strip_all_monitors_catch(&mut v[i]);
        i += 1;
    }
    assert(catch_list(v@) =~= monitors_stripped_catches(catch_list(old(v)@)));
}

/// Emptying statements keeps the size.
proof fn lemma_stripped_size(s: StmtV, enters: bool)
    ensures
        stmt_size(kind_stripped(s, enters)) == stmt_size(s),
    decreases s,
{
    assert(stmts_size(seq![]) == 0);
    assert(stmt_size(empty_block()) == 1 + stmts_size(seq![]));
    match s {
        StmtV::Block(items) => { lemma_stripped_size_seq(items, enters);  },
        StmtV::If { then_stmt, else_stmt, .. } => {
            lemma_stripped_size(*then_stmt, enters);
            lemma_stripped_size_opt(else_stmt, enters);
        },
        StmtV::While { body, .. } => { lemma_stripped_size(*body, enters);  },
        StmtV::DoWhile { body, .. } => { lemma_stripped_size(*body, enters);  },
        StmtV::For { init, body, .. } => {
            lemma_stripped_size_seq(init, enters);
            lemma_stripped_size(*body, enters);
        },
        StmtV::ForEach { body, .. } => { lemma_stripped_size(*body, enters);  },
        StmtV::Switch { cases, default, .. } => {
            lemma_stripped_size_cases(cases, enters);
            lemma_stripped_size_opt(default, enters);
        },
        StmtV::Try { body, catches, finally } => {
            lemma_stripped_size(*body, enters);
            lemma_stripped_size_catches(catches, enters);
            lemma_stripped_size_opt(finally, enters);
        },
        StmtV::TryWithResources { resources, body, catches, finally } => {
            lemma_stripped_size_seq(resources, enters);
            lemma_stripped_size(*body, enters);
            lemma_stripped_size_catches(catches, enters);
            lemma_stripped_size_opt(finally, enters);
        },
        StmtV::Synchronized { body, .. } => { lemma_stripped_size(*body, enters);  },
        StmtV::Labeled { body, .. } => { lemma_stripped_size(*body, enters);  },
        _ => {},
    }
}

/// [`lemma_stripped_size`] where there is a statement.
proof fn lemma_stripped_size_opt(o: Option<Box<StmtV>>, enters: bool)
    ensures
        opt_stmt_size(kind_stripped_opt(o, enters)) == opt_stmt_size(o),
    decreases o,
{
    if let Some(x) = o {
        lemma_stripped_size(*x, enters);
    }
}

/// [`lemma_stripped_size`] over a list.
proof fn lemma_stripped_size_seq(v: Seq<StmtV>, enters: bool)
    ensures
        stmts_size(kind_stripped_seq(v, enters)) == stmts_size(v),
    decreases v,
{
    if v.len() > 0 {
        lemma_stripped_size_seq(v.drop_last(), enters);
        lemma_stripped_size(v.last(), enters);
        assert(
            kind_stripped_seq(v, enters).drop_last() =~= kind_stripped_seq(v.drop_last(), enters)
        );
        assert(kind_stripped_seq(v, enters).last() == kind_stripped(v.last(), enters));
    }
}

/// [`lemma_stripped_size`] over switch arms.
proof fn lemma_stripped_size_cases(v: Seq<CaseGroupV>, enters: bool)
    ensures
        cases_size(kind_stripped_cases(v, enters)) == cases_size(v),
    decreases v,
{
    if v.len() > 0 {
        lemma_stripped_size_cases(v.drop_last(), enters);
        lemma_stripped_size_case(v.last(), enters);
        assert(
            kind_stripped_cases(v, enters).drop_last() =~= kind_stripped_cases(
                v.drop_last(),
                enters,
            )
        );
        assert(kind_stripped_cases(v, enters).last() == kind_stripped_case(v.last(), enters));
    }
}

/// [`lemma_stripped_size`] inside a switch arm.
proof fn lemma_stripped_size_case(c: CaseGroupV, enters: bool)
    ensures
        case_size(kind_stripped_case(c, enters)) == case_size(c),
    decreases c,
{
    lemma_stripped_size_seq(c.body, enters);
}

/// [`lemma_stripped_size`] over catch clauses.
proof fn lemma_stripped_size_catches(v: Seq<CatchV>, enters: bool)
    ensures
        catches_size(kind_stripped_catches(v, enters)) == catches_size(v),
    decreases v,
{
    if v.len() > 0 {
        lemma_stripped_size_catches(v.drop_last(), enters);
        lemma_stripped_size_catch(v.last(), enters);
        assert(
            kind_stripped_catches(v, enters).drop_last() =~= kind_stripped_catches(
                v.drop_last(),
                enters,
            )
        );
        assert(kind_stripped_catches(v, enters).last() == kind_stripped_catch(v.last(), enters));
    }
}

/// [`lemma_stripped_size`] inside a catch clause.
proof fn lemma_stripped_size_catch(c: CatchV, enters: bool)
    ensures
        catch_size(kind_stripped_catch(c, enters)) == catch_size(c),
    decreases c,
{
    lemma_stripped_size(*c.body, enters);
}

/// No lock (or unlock) statement is left after they were emptied.
pub proof fn law_strip_kind_removes(s: StmtV, enters: bool)
    ensures
        !has_kind(kind_stripped(s, enters), enters),
    decreases s,
{
    assert(!has_kind_seq(seq![], enters));
    assert(!has_kind(empty_block(), enters));
    match s {
        StmtV::Block(items) => { lemma_kind_removed_seq(items, enters);  },
        StmtV::If { then_stmt, else_stmt, .. } => {
            law_strip_kind_removes(*then_stmt, enters);
            lemma_kind_removed_opt(else_stmt, enters);
        },
        StmtV::While { body, .. } => { law_strip_kind_removes(*body, enters);  },
        StmtV::DoWhile { body, .. } => { law_strip_kind_removes(*body, enters);  },
        StmtV::For { init, body, .. } => {
            lemma_kind_removed_seq(init, enters);
            law_strip_kind_removes(*body, enters);
        },
        StmtV::ForEach { body, .. } => { law_strip_kind_removes(*body, enters);  },
        StmtV::Switch { cases, default, .. } => {
            lemma_kind_removed_cases(cases, enters);
            lemma_kind_removed_opt(default, enters);
        },
        StmtV::Try { body, catches, finally } => {
            law_strip_kind_removes(*body, enters);
            lemma_kind_removed_catches(catches, enters);
            lemma_kind_removed_opt(finally, enters);
        },
        StmtV::TryWithResources { resources, body, catches, finally } => {
            lemma_kind_removed_seq(resources, enters);
            law_strip_kind_removes(*body, enters);
            lemma_kind_removed_catches(catches, enters);
            lemma_kind_removed_opt(finally, enters);
        },
        StmtV::Synchronized { body, .. } => { law_strip_kind_removes(*body, enters);  },
        StmtV::Labeled { body, .. } => { law_strip_kind_removes(*body, enters);  },
        _ => {},
    }
}

/// [`law_strip_kind_removes`] where there is a statement.
proof fn lemma_kind_removed_opt(o: Option<Box<StmtV>>, enters: bool)
    ensures
        !has_kind_opt(kind_stripped_opt(o, enters), enters),
    decreases o,
{
    if let Some(x) = o {
        law_strip_kind_removes(*x, enters);
    }
}

/// [`law_strip_kind_removes`] over a list.
proof fn lemma_kind_removed_seq(v: Seq<StmtV>, enters: bool)
    ensures
        !has_kind_seq(kind_stripped_seq(v, enters), enters),
    decreases v,
{
    assert forall|i: int|
        0 <= i < v.len() implies !has_kind(#[trigger] kind_stripped_seq(v, enters)[i], enters) by {
        law_strip_kind_removes(v[i], enters);
    }
}

/// [`law_strip_kind_removes`] over switch arms.
proof fn lemma_kind_removed_cases(v: Seq<CaseGroupV>, enters: bool)
    ensures
        !has_kind_cases(kind_stripped_cases(v, enters), enters),
    decreases v,
{
    assert forall|i: int|
        0 <= i < v.len() implies !has_kind_case(
            #[trigger] kind_stripped_cases(v, enters)[i],
            enters,
        ) by {
        lemma_kind_removed_case(v[i], enters);
    }
}

/// [`law_strip_kind_removes`] inside a switch arm.
proof fn lemma_kind_removed_case(c: CaseGroupV, enters: bool)
    ensures
        !has_kind_case(kind_stripped_case(c, enters), enters),
    decreases c,
{
    lemma_kind_removed_seq(c.body, enters);
}

/// [`law_strip_kind_removes`] over catch clauses.
proof fn lemma_kind_removed_catches(v: Seq<CatchV>, enters: bool)
    ensures
        !has_kind_catches(kind_stripped_catches(v, enters), enters),
    decreases v,
{
    assert forall|i: int|
        0 <= i < v.len() implies !has_kind_catch(
            #[trigger] kind_stripped_catches(v, enters)[i],
            enters,
        ) by {
        lemma_kind_removed_catch(v[i], enters);
    }
}

/// [`law_strip_kind_removes`] inside a catch clause.
proof fn lemma_kind_removed_catch(c: CatchV, enters: bool)
    ensures
        !has_kind_catch(kind_stripped_catch(c, enters), enters),
    decreases c,
{
    law_strip_kind_removes(*c.body, enters);
}

/// Neither a lock nor an unlock statement is left after all were emptied.
pub proof fn law_strip_all_removes(s: StmtV, enters: bool)
    ensures
        !has_kind(monitors_stripped(s), enters),
    decreases s,
{
    assert(!has_kind_seq(seq![], enters));
    assert(!has_kind(empty_block(), enters));
    match s {
        StmtV::Block(items) => { lemma_all_removed_seq(items, enters);  },
        StmtV::If { then_stmt, else_stmt, .. } => {
            law_strip_all_removes(*then_stmt, enters);
            lemma_all_removed_opt(else_stmt, enters);
        },
        StmtV::While { body, .. } => { law_strip_all_removes(*body, enters);  },
        StmtV::DoWhile { body, .. } => { law_strip_all_removes(*body, enters);  },
        StmtV::For { init, body, .. } => {
            lemma_all_removed_seq(init, enters);
            law_strip_all_removes(*body, enters);
        },
        StmtV::ForEach { body, .. } => { law_strip_all_removes(*body, enters);  },
        StmtV::Switch { cases, default, .. } => {
            lemma_all_removed_cases(cases, enters);
            lemma_all_removed_opt(default, enters);
        },
        StmtV::Try { body, catches, finally } => {
            law_strip_all_removes(*body, enters);
            lemma_all_removed_catches(catches, enters);
            lemma_all_removed_opt(finally, enters);
        },
        StmtV::TryWithResources { resources, body, catches, finally } => {
            lemma_all_removed_seq(resources, enters);
            law_strip_all_removes(*body, enters);
            lemma_all_removed_catches(catches, enters);
            lemma_all_removed_opt(finally, enters);
        },
        StmtV::Synchronized { body, .. } => { law_strip_all_removes(*body, enters);  },
        StmtV::Labeled { body, .. } => { law_strip_all_removes(*body, enters);  },
        _ => {},
    }
}

/// [`law_strip_all_removes`] where there is a statement.
proof fn lemma_all_removed_opt(o: Option<Box<StmtV>>, enters: bool)
    ensures
        !has_kind_opt(monitors_stripped_opt(o), enters),
    decreases o,
{
    if let Some(x) = o {
        law_strip_all_removes(*x, enters);
    }
}

/// [`law_strip_all_removes`] over a list.
proof fn lemma_all_removed_seq(v: Seq<StmtV>, enters: bool)
    ensures
        !has_kind_seq(monitors_stripped_seq(v), enters),
    decreases v,
{
    assert forall|i: int|
        0 <= i < v.len() implies !has_kind(#[trigger] monitors_stripped_seq(v)[i], enters) by {
        law_strip_all_removes(v[i], enters);
    }
}

/// [`law_strip_all_removes`] over switch arms.
proof fn lemma_all_removed_cases(v: Seq<CaseGroupV>, enters: bool)
    ensures
        !has_kind_cases(monitors_stripped_cases(v), enters),
    decreases v,
{
    assert forall|i: int|
        0 <= i < v.len() implies !has_kind_case(
            #[trigger] monitors_stripped_cases(v)[i],
            enters,
        ) by {
        lemma_all_removed_case(v[i], enters);
    }
}

/// [`law_strip_all_removes`] inside a switch arm.
proof fn lemma_all_removed_case(c: CaseGroupV, enters: bool)
    ensures
        !has_kind_case(monitors_stripped_case(c), enters),
    decreases c,
{
    lemma_all_removed_seq(c.body, enters);
}

/// [`law_strip_all_removes`] over catch clauses.
proof fn lemma_all_removed_catches(v: Seq<CatchV>, enters: bool)
    ensures
        !has_kind_catches(monitors_stripped_catches(v), enters),
    decreases v,
{
    assert forall|i: int|
        0 <= i < v.len() implies !has_kind_catch(
            #[trigger] monitors_stripped_catches(v)[i],
            enters,
        ) by {
        lemma_all_removed_catch(v[i], enters);
    }
}

/// [`law_strip_all_removes`] inside a catch clause.
proof fn lemma_all_removed_catch(c: CatchV, enters: bool)
    ensures
        !has_kind_catch(monitors_stripped_catch(c), enters),
    decreases c,
{
    law_strip_all_removes(*c.body, enters);
}

/// `s` without locks that nothing unlocks, then without unlocks that nothing
/// locked.
pub open spec fn unpaired_stripped(s: StmtV) -> StmtV {
    let s1 = if has_kind(s, false) {
        s
    } else {
        kind_stripped(s, true)
    };
    if has_kind(s1, true) {
        s1
    } else {
        kind_stripped(s1, false)
    }
}

/// Only unlock statements and comments, at least one statement.
pub open spec fn only_exits(body: StmtV) -> bool {
    match body {
        StmtV::Block(v) => v.len() > 0 && forall|i: int|
            0 <= i < v.len() ==> #[trigger] v[i] is MonitorExit || v[i] is Comment,
        _ => body is MonitorExit,
    }
}

/// A `try` that only unlocks, with a handler that only unlocks and rethrows.
pub open spec fn is_exit_try(
    body: StmtV,
    catches: Seq<CatchV>,
    finally: Option<Box<StmtV>>,
) -> bool {
    &&& only_exits(body)
    &&& catches.len() == 1
    &&& finally is None
    &&& catches[0].exc.len() == 0
    &&& all_leaves(*catches[0].body, LeafTest::Rethrowing)
}

/// `s` without leftover monitor statements.
pub open spec fn sync_stripped(s: StmtV) -> StmtV
    decreases stmt_size(s), 1nat
    via sync_stripped_decreases
{
    sync_parts(unpaired_stripped(s))
}

/// Stripping what is unpaired keeps the size.
proof fn lemma_unpaired_size(s: StmtV)
    ensures
        stmt_size(unpaired_stripped(s)) == stmt_size(s),
{
    lemma_stripped_size(s, true);
    lemma_stripped_size(s, false);
    lemma_stripped_size(kind_stripped(s, true), false);
}

#[via_fn]
proof fn sync_stripped_decreases(s: StmtV) {
    lemma_unpaired_size(s);
}

/// `s` with leftover monitor statements stripped from its parts; inside a
/// `synchronized` block all of them. A `try` that only unlocks goes.
pub open spec fn sync_parts(s: StmtV) -> StmtV
    decreases stmt_size(s), 0nat,
{
    match s {
        StmtV::Block(items) => StmtV::Block(sync_parts_seq(items)),
        StmtV::If { cond, then_stmt, else_stmt } => StmtV::If {
            cond,
            then_stmt: Box::new(sync_stripped(*then_stmt)),
            else_stmt: sync_parts_opt(else_stmt),
        },
        StmtV::While { cond, body } => StmtV::While { cond, body: Box::new(sync_stripped(*body)) },
        StmtV::DoWhile { body, cond } => StmtV::DoWhile {
            body: Box::new(sync_stripped(*body)),
            cond,
        },
        StmtV::For { init, cond, update, body } => StmtV::For {
            init: sync_parts_seq(init),
            cond,
            update,
            body: Box::new(sync_stripped(*body)),
        },
        StmtV::ForEach { var, iterable, is_array, body } => StmtV::ForEach {
            var,
            iterable,
            is_array,
            body: Box::new(sync_stripped(*body)),
        },
        StmtV::Switch { selector, cases, default, on_string } => StmtV::Switch {
            selector,
            cases: sync_parts_cases(cases),
            default: sync_parts_opt(default),
            on_string,
        },
        StmtV::Try { body, catches, finally } => if is_exit_try(*body, catches, finally) {
            empty_block()
        } else {
            StmtV::Try {
                body: Box::new(sync_stripped(*body)),
                catches: sync_parts_catches(catches),
                finally: sync_parts_opt(finally),
            }
        },
        StmtV::TryWithResources { resources, body, catches, finally } => StmtV::TryWithResources {
            resources: sync_parts_seq(resources),
            body: Box::new(sync_stripped(*body)),
            catches: sync_parts_catches(catches),
            finally: sync_parts_opt(finally),
        },
        StmtV::Synchronized { lock, body } => StmtV::Synchronized {
            lock,
            body: Box::new(monitors_stripped(*body)),
        },
        StmtV::Labeled { label, body } => StmtV::Labeled {
            label,
            body: Box::new(sync_stripped(*body)),
        },
        _ => s,
    }
}

/// [`sync_parts`] where there is a value.
pub open spec fn sync_parts_opt(o: Option<Box<StmtV>>) -> Option<Box<StmtV>>
    decreases opt_stmt_size(o), 0nat,
{
    match o {
        Some(x) => Some(Box::new(sync_stripped(*x))),
        None => None,
    }
}

/// [`sync_parts`] over a list.
pub open spec fn sync_parts_seq(v: Seq<StmtV>) -> Seq<StmtV>
    decreases stmts_size(v), 0nat,
{
    if v.len() == 0 {
        seq![]
    } else {
        sync_parts_seq(v.drop_last()).push(sync_stripped(v.last()))
    }
}

/// [`sync_parts`] inside a switch arm.
pub open spec fn sync_parts_case(c: CaseGroupV) -> CaseGroupV
    decreases case_size(c), 0nat,
{
    CaseGroupV { body: sync_parts_seq(c.body), ..c }
}

/// [`sync_parts`] over a list.
pub open spec fn sync_parts_cases(v: Seq<CaseGroupV>) -> Seq<CaseGroupV>
    decreases cases_size(v), 0nat,
{
    if v.len() == 0 {
        seq![]
    } else {
        sync_parts_cases(v.drop_last()).push(sync_parts_case(v.last()))
    }
}

/// [`sync_parts`] inside a catch clause.
pub open spec fn sync_parts_catch(c: CatchV) -> CatchV
    decreases catch_size(c), 0nat,
{
    CatchV { body: Box::new(sync_stripped(*c.body)), ..c }
}

/// [`sync_parts`] over a list.
pub open spec fn sync_parts_catches(v: Seq<CatchV>) -> Seq<CatchV>
    decreases catches_size(v), 0nat,
{
    if v.len() == 0 {
        seq![]
    } else {
        sync_parts_catches(v.drop_last()).push(sync_parts_catch(v.last()))
    }
}

/// Strips the parts of `s`: inside a `synchronized` block every monitor statement,
/// elsewhere what is left over; a `try` that only unlocks goes.
pub fn strip_inner(s: &mut Stmt)
    ensures
        final(s)@ == sync_parts(old(s)@),
    decreases stmt_size(old(s)@), 0nat,
{
    match s {
        Stmt::Block(items) => { strip_inner_vec(items); },
        Stmt::If { then_stmt, else_stmt, .. } => {
            strip_monitors_in_sync(then_stmt);
            strip_inner_opt(else_stmt);
        },
        Stmt::While { body, .. } => { strip_monitors_in_sync(body); },
        Stmt::DoWhile { body, .. } => { strip_monitors_in_sync(body); },
        Stmt::For { init, body, .. } => { strip_inner_vec(init); strip_monitors_in_sync(body); },
        Stmt::ForEach { body, .. } => { strip_monitors_in_sync(body); },
        Stmt::Switch { cases, default, .. } => {
            strip_inner_cases(cases);
            strip_inner_opt(default);
        },
        Stmt::Try { body, catches, finally } => {
            if exit_try(body, catches, finally) {
                *s = no_stmt();
            } else {
                strip_monitors_in_sync(body);
                strip_inner_catches(catches);
                strip_inner_opt(finally);
            }
        },
        Stmt::TryWithResources { resources, body, catches, finally } => {
            strip_inner_vec(resources);
            strip_monitors_in_sync(body);
            strip_inner_catches(catches);
            strip_inner_opt(finally);
        },
        Stmt::Synchronized { body, .. } => strip_all_monitors(body),
        Stmt::Labeled { body, .. } => { strip_monitors_in_sync(body); },
        _ => {},
    }
}

/// `strip_inner` where there is a value.
pub fn strip_inner_opt(o: &mut Option<Box<Stmt>>)
    ensures
        opt_stmt(*final(o)) == sync_parts_opt(opt_stmt(*old(o))),
    decreases opt_stmt_size(opt_stmt(*old(o))), 0nat,
{
    if let Some(x) = o {
        strip_monitors_in_sync(x);
    }
}

/// `strip_inner` over a list.
#[verifier::loop_isolation(false)]
pub fn strip_inner_vec(v: &mut Vec<Stmt>)
    ensures
        stmts(final(v)@) == sync_parts_seq(stmts(old(v)@)),
    decreases stmts_size(stmts(old(v)@)), 0nat,
{
    let ghost all = stmts(v@);
    let mut i: usize = 0;
    assert(stmts(v@.take(0)) =~= seq![]);
    while i < v.len()
        invariant
            i <= v.len(),
            v.len() == old(v).len(),
            stmts(v@.take(i as int)) == sync_parts_seq(all.take(i as int)),
            forall|j: int| i <= j < v.len() ==> #[trigger] v@[j] == old(v)@[j],
        decreases v.len() - i,
    {
        let ghost before = stmts(v@.take(i as int));
        assert(all.take(i + 1).drop_last() =~= all.take(i as int));
        assert(all.take(i + 1).last() == v@[i as int]@);
        proof {
            lemma_stmts_size(stmts(old(v)@), i as int);
        }
        strip_monitors_in_sync(&mut v[i]);
        i += 1;
        assert(stmts(v@.take(i as int)) =~= before.push(v@[i - 1]@));
    }
    assert(v@.take(i as int) =~= v@);
    assert(all.take(i as int) =~= all);
}

/// `strip_inner` inside a switch arm.
pub fn strip_inner_case(c: &mut CaseGroup)
    ensures
        final(c)@ == sync_parts_case(old(c)@),
    decreases case_size(old(c)@), 0nat,
{
    strip_inner_vec(&mut c.body);
}

/// `strip_inner` over a list.
#[verifier::loop_isolation(false)]
pub fn strip_inner_cases(v: &mut Vec<CaseGroup>)
    ensures
        case_groups(final(v)@) == sync_parts_cases(case_groups(old(v)@)),
    decreases cases_size(case_groups(old(v)@)), 0nat,
{
    let ghost all = case_groups(v@);
    let mut i: usize = 0;
    assert(case_groups(v@.take(0)) =~= seq![]);
    while i < v.len()
        invariant
            i <= v.len(),
            v.len() == old(v).len(),
            case_groups(v@.take(i as int)) == sync_parts_cases(all.take(i as int)),
            forall|j: int| i <= j < v.len() ==> #[trigger] v@[j] == old(v)@[j],
        decreases v.len() - i,
    {
        let ghost before = case_groups(v@.take(i as int));
        assert(all.take(i + 1).drop_last() =~= all.take(i as int));
        assert(all.take(i + 1).last() == v@[i as int]@);
        proof {
            lemma_cases_size(case_groups(old(v)@), i as int);
        }
        strip_inner_case(&mut v[i]);
        i += 1;
        assert(case_groups(v@.take(i as int)) =~= before.push(v@[i - 1]@));
    }
    assert(v@.take(i as int) =~= v@);
    assert(all.take(i as int) =~= all);
}

/// `strip_inner` inside a catch clause.
pub fn strip_inner_catch(c: &mut Catch)
    ensures
        final(c)@ == sync_parts_catch(old(c)@),
    decreases catch_size(old(c)@), 0nat,
{
    strip_monitors_in_sync(&mut c.body);
}

/// `strip_inner` over a list.
#[verifier::loop_isolation(false)]
pub fn strip_inner_catches(v: &mut Vec<Catch>)
    ensures
        catch_list(final(v)@) == sync_parts_catches(catch_list(old(v)@)),
    decreases catches_size(catch_list(old(v)@)), 0nat,
{
    let ghost all = catch_list(v@);
    let mut i: usize = 0;
    assert(catch_list(v@.take(0)) =~= seq![]);
    while i < v.len()
        invariant
            i <= v.len(),
            v.len() == old(v).len(),
            catch_list(v@.take(i as int)) == sync_parts_catches(all.take(i as int)),
            forall|j: int| i <= j < v.len() ==> #[trigger] v@[j] == old(v)@[j],
        decreases v.len() - i,
    {
        let ghost before = catch_list(v@.take(i as int));
        assert(all.take(i + 1).drop_last() =~= all.take(i as int));
        assert(all.take(i + 1).last() == v@[i as int]@);
        proof {
            lemma_catches_size(catch_list(old(v)@), i as int);
        }
        strip_inner_catch(&mut v[i]);
        i += 1;
        assert(catch_list(v@.take(i as int)) =~= before.push(v@[i - 1]@));
    }
    assert(v@.take(i as int) =~= v@);
    assert(all.take(i as int) =~= all);
}

/// Whether a `try` only unlocks.
#[verifier::loop_isolation(false)]
fn exit_try(body: &Stmt, catches: &Vec<Catch>, finally: &Option<Box<Stmt>>) -> (r: bool)
    ensures
        r == is_exit_try(body@, catch_list(catches@), opt_stmt(*finally)),
{
    assert(catch_list(catches@).len() == catches@.len());
    assert(opt_stmt(*finally) is None <==> *finally is None);
    if catches.len() != 1 || finally.is_some() {
        return false;
    }
    assert(catch_list(catches@)[0] == catches@[0]@);
    assert(strs(catches@[0].exc@).len() == catches@[0].exc@.len());
    if catches[0].exc.len() != 0 || !leaves_pass(&catches[0].body, LeafTest::Rethrowing) {
        return false;
    }
    match body {
        Stmt::Block(v) => {
            assert(stmts(v@).len() == v@.len());
            let mut i: usize = 0;
            while i < v.len()
                invariant
                    i <= v.len(),
                    forall|j: int|
                        0 <= j < i ==> #[trigger] stmts(v@)[j] is MonitorExit || stmts(
                            v@,
                        )[j] is Comment,
                decreases v.len() - i,
            {
                assert(stmts(v@)[i as int] == v@[i as int]@);
                if !matches!(&v[i], Stmt::MonitorExit(_) | Stmt::Comment(_)) {
                    return false;
                }
                i += 1;
            }
            v.len() > 0
        },
        Stmt::MonitorExit(_) => true,
        _ => false,
    }
}

/// Removes the monitor statements that rebuilding `synchronized` blocks left over.
pub fn strip_monitors_in_sync(s: &mut Stmt)
    ensures
        final(s)@ == sync_stripped(old(s)@),
    decreases stmt_size(old(s)@), 1nat,
{
    proof {
        lemma_unpaired_size(s@);
    }
    if !stmt_has_kind(s, false) {
        strip_kind(s, true);
    }
    if !stmt_has_kind(s, true) {
        strip_kind(s, false);
    }
    strip_inner(s);
}

/// A lock and the `try` after it that unlocks become a `synchronized` block on that lock.
pub proof fn law_lock_becomes_synchronized(lock: ExprV, t: StmtV)
    requires
        synchronized(lock, t) is Some,
    ensures
        rebuilt(StmtV::Block(seq![StmtV::MonitorEnter(lock), t])) == StmtV::Block(
            seq![rebuilt(synchronized(lock, t).unwrap())],
        ),
{
    let enter = StmtV::MonitorEnter(lock);
    let s = synchronized(lock, t).unwrap();
    let items = seq![enter, t];
    assert(items.drop_last() =~= seq![enter]);
    assert(seq![enter].drop_last() =~= seq![]);
    assert(flat(seq![]) =~= seq![]);
    assert(flat(seq![enter]) =~= seq![enter]);
    assert(flat(items) =~= items);
    assert(items.skip(2) =~= seq![]);
    assert(seq![s] + items.skip(2) =~= seq![s]);
    assert(rebuilt(enter) == enter);
    assert(rebuilt_rest(seq![s]) =~= seq![rebuilt(s)]);
    let w = seq![empty_block(), rebuilt(s)];
    assert(rebuilt_rest(items) =~= w);
    assert(w.drop_last() =~= seq![empty_block()]);
    assert(seq![empty_block()].drop_last() =~= seq![]);
    assert(nonempty(seq![]) =~= seq![]);
    assert(nonempty(seq![empty_block()]) =~= seq![]);
    assert(nonempty(w) =~= seq![rebuilt(s)]);
    assert(rebuilt_list(items) == nonempty(rebuilt_rest(flat(items))));
    assert(rebuilt(StmtV::Block(items)) == StmtV::Block(rebuilt_list(items)));
}

} // verus!
