//! Removal of stores to made-up variables that nothing reads.
use crate::expr::{as_local_store, local_store, Expr, ExprV};
use crate::stmt::{
    case_groups, catch_list, opt_stmt, stmts, CaseGroup, CaseGroupV, Catch, CatchV, Stmt, StmtV,
};
use crate::uses::{collect_stmt_reads, stmt_reads};
use crate::var::{is_param, is_synthetic, VarTable, VarTableV};
use std::collections::HashSet;
use vstd::prelude::*;

verus! {

broadcast use vstd::std_specs::hash::group_hash_axioms;

/// The variable that `s` stores to as a whole: a plain assignment to a local, or
/// a declaration.
pub open spec fn stored_var(s: StmtV) -> Option<u32> {
    match s {
        StmtV::ExprStmt(e) => match as_local_store(e) {
            Some((v, _)) => Some(v),
            None => None,
        },
        StmtV::LocalDef { var, .. } => Some(var),
        _ => None,
    }
}

/// `s` stores to a made-up variable, not a parameter, that is not in `read`.
pub open spec fn is_dead_store(s: StmtV, vt: VarTableV, read: Set<u32>) -> bool {
    stored_var(s) matches Some(v) && is_synthetic(vt, v) && !is_param(vt, v) && !read.contains(v)
}

/// Values that must still be evaluated when their store goes.
pub open spec fn must_evaluate(e: ExprV) -> bool {
    e is Method || e is New || e is AnonNew || e is Assign || e is PreIncDec || e is PostIncDec
}

/// What stays of a dead store: its value as a statement, where it must still be
/// evaluated.
pub open spec fn dead_store_rest(s: StmtV) -> Seq<StmtV> {
    let value = match s {
        StmtV::ExprStmt(e) => match as_local_store(e) {
            Some((_, x)) => Some(x),
            None => None,
        },
        StmtV::LocalDef { init, .. } => init,
        _ => None,
    };
    match value {
        Some(x) => if must_evaluate(x) {
            seq![StmtV::ExprStmt(x)]
        } else {
            seq![]
        },
        None => seq![],
    }
}

/// A statement list without its dead stores, the others pruned inside.
pub open spec fn pruned_seq(v: Seq<StmtV>, vt: VarTableV, read: Set<u32>) -> Seq<StmtV>
    decreases v,
{
    if v.len() == 0 {
        seq![]
    } else {
        pruned_seq(v.drop_last(), vt, read) + if is_dead_store(v.last(), vt, read) {
            dead_store_rest(v.last())
        } else {
            seq![pruned(v.last(), vt, read)]
        }
    }
}

/// [`pruned`] on each of a list, dead stores left in place.
pub open spec fn pruned_each(v: Seq<StmtV>, vt: VarTableV, read: Set<u32>) -> Seq<StmtV>
    decreases v,
{
    Seq::new(v.len(), |i: int| if 0 <= i < v.len() { pruned(v[i], vt, read) } else { arbitrary() })
}

/// `s` without the dead stores of its statement lists.
pub open spec fn pruned(s: StmtV, vt: VarTableV, read: Set<u32>) -> StmtV
    decreases s,
{
    match s {
        StmtV::Block(items) => StmtV::Block(pruned_seq(items, vt, read)),
        StmtV::If { cond, then_stmt, else_stmt } => StmtV::If {
            cond,
            then_stmt: Box::new(pruned(*then_stmt, vt, read)),
            else_stmt: pruned_opt(else_stmt, vt, read),
        },
        StmtV::While { cond, body } => StmtV::While {
            cond,
            body: Box::new(pruned(*body, vt, read)),
        },
        StmtV::DoWhile { body, cond } => StmtV::DoWhile {
            body: Box::new(pruned(*body, vt, read)),
            cond,
        },
        StmtV::For { init, cond, update, body } => StmtV::For {
            init: pruned_each(init, vt, read),
            cond,
            update,
            body: Box::new(pruned(*body, vt, read)),
        },
        StmtV::ForEach { var, iterable, is_array, body } => StmtV::ForEach {
            var,
            iterable,
            is_array,
            body: Box::new(pruned(*body, vt, read)),
        },
        StmtV::Switch { selector, cases, default, on_string } => StmtV::Switch {
            selector,
            cases: pruned_cases(cases, vt, read),
            default: pruned_opt(default, vt, read),
            on_string,
        },
        StmtV::Try { body, catches, finally } => StmtV::Try {
            body: Box::new(pruned(*body, vt, read)),
            catches: pruned_catches(catches, vt, read),
            finally: pruned_opt(finally, vt, read),
        },
        StmtV::TryWithResources { resources, body, catches, finally } => StmtV::TryWithResources {
            resources: pruned_each(resources, vt, read),
            body: Box::new(pruned(*body, vt, read)),
            catches: pruned_catches(catches, vt, read),
            finally: pruned_opt(finally, vt, read),
        },
        StmtV::Synchronized { lock, body } => StmtV::Synchronized {
            lock,
            body: Box::new(pruned(*body, vt, read)),
        },
        StmtV::Labeled { label, body } => StmtV::Labeled {
            label,
            body: Box::new(pruned(*body, vt, read)),
        },
        _ => s,
    }
}

/// [`pruned`] where there is a value.
pub open spec fn pruned_opt(
    o: Option<Box<StmtV>>,
    vt: VarTableV,
    read: Set<u32>,
) -> Option<Box<StmtV>>
    decreases o,
{
    match o {
        Some(x) => Some(Box::new(pruned(*x, vt, read))),
        None => None,
    }
}

/// [`pruned`] inside a switch arm.
pub open spec fn pruned_case(c: CaseGroupV, vt: VarTableV, read: Set<u32>) -> CaseGroupV
    decreases c,
{
    CaseGroupV { body: pruned_seq(c.body, vt, read), ..c }
}

/// [`pruned`] over a list.
pub open spec fn pruned_cases(v: Seq<CaseGroupV>, vt: VarTableV, read: Set<u32>) -> Seq<CaseGroupV>
    decreases v,
{
    Seq::new(
        v.len(),
        |i: int| if 0 <= i < v.len() { pruned_case(v[i], vt, read) } else { arbitrary() },
    )
}

/// [`pruned`] inside a catch clause.
pub open spec fn pruned_catch(c: CatchV, vt: VarTableV, read: Set<u32>) -> CatchV
    decreases c,
{
    CatchV { body: Box::new(pruned(*c.body, vt, read)), ..c }
}

/// [`pruned`] over a list.
pub open spec fn pruned_catches(v: Seq<CatchV>, vt: VarTableV, read: Set<u32>) -> Seq<CatchV>
    decreases v,
{
    Seq::new(
        v.len(),
        |i: int| if 0 <= i < v.len() { pruned_catch(v[i], vt, read) } else { arbitrary() },
    )
}

/// Removes dead stores from every statement list inside `s`.
pub fn prune(s: &mut Stmt, vt: &VarTable, read: &HashSet<u32>)
    ensures
        final(s)@ == pruned(old(s)@, vt@, read@),
    decreases *old(s),
{
    match s {
        Stmt::Block(items) => { prune_vec(items, vt, read); },
        Stmt::If { then_stmt, else_stmt, .. } => {
            prune(then_stmt, vt, read);
            prune_opt(else_stmt, vt, read);
        },
        Stmt::While { body, .. } => { prune(body, vt, read); },
        Stmt::DoWhile { body, .. } => { prune(body, vt, read); },
        Stmt::For { init, body, .. } => { prune_each(init, vt, read); prune(body, vt, read); },
        Stmt::ForEach { body, .. } => { prune(body, vt, read); },
        Stmt::Switch { cases, default, .. } => {
            prune_cases(cases, vt, read);
            prune_opt(default, vt, read);
        },
        Stmt::Try { body, catches, finally } => {
            prune(body, vt, read);
            prune_catches(catches, vt, read);
            prune_opt(finally, vt, read);
        },
        Stmt::TryWithResources { resources, body, catches, finally } => {
            prune_each(resources, vt, read);
            prune(body, vt, read);
            prune_catches(catches, vt, read);
            prune_opt(finally, vt, read);
        },
        Stmt::Synchronized { body, .. } => { prune(body, vt, read); },
        Stmt::Labeled { body, .. } => { prune(body, vt, read); },
        _ => {},
    }
}

/// `prune` where there is a value.
pub fn prune_opt(o: &mut Option<Box<Stmt>>, vt: &VarTable, read: &HashSet<u32>)
    ensures
        opt_stmt(*final(o)) == pruned_opt(opt_stmt(*old(o)), vt@, read@),
    decreases *old(o),
{
    if let Some(x) = o {
        prune(x, vt, read);
    }
}

/// `prune` inside a switch arm.
pub fn prune_case(c: &mut CaseGroup, vt: &VarTable, read: &HashSet<u32>)
    ensures
        final(c)@ == pruned_case(old(c)@, vt@, read@),
    decreases *old(c),
{
    prune_vec(&mut c.body, vt, read);
}

/// `prune` over a list.
#[verifier::loop_isolation(false)]
pub fn prune_cases(v: &mut Vec<CaseGroup>, vt: &VarTable, read: &HashSet<u32>)
    ensures
        case_groups(final(v)@) == pruned_cases(case_groups(old(v)@), vt@, read@),
    decreases *old(v),
{
    let mut i: usize = 0;
    while i < v.len()
        invariant
            i <= v.len(),
            v.len() == old(v).len(),
            forall|j: int|
                0 <= j < i ==> (#[trigger] v@[j])@ == pruned_case(old(v)@[j]@, vt@, read@),
            forall|j: int| i <= j < v.len() ==> #[trigger] v@[j] == old(v)@[j],
        decreases v.len() - i,
    {
        assert(decreases_to!(*old(v) => v@[i as int]));
        prune_case(&mut v[i], vt, read);
        i += 1;
    }
    assert(case_groups(v@) =~= pruned_cases(case_groups(old(v)@), vt@, read@));
}

/// `prune` inside a catch clause.
pub fn prune_catch(c: &mut Catch, vt: &VarTable, read: &HashSet<u32>)
    ensures
        final(c)@ == pruned_catch(old(c)@, vt@, read@),
    decreases *old(c),
{
    prune(&mut c.body, vt, read);
}

/// `prune` over a list.
#[verifier::loop_isolation(false)]
pub fn prune_catches(v: &mut Vec<Catch>, vt: &VarTable, read: &HashSet<u32>)
    ensures
        catch_list(final(v)@) == pruned_catches(catch_list(old(v)@), vt@, read@),
    decreases *old(v),
{
    let mut i: usize = 0;
    while i < v.len()
        invariant
            i <= v.len(),
            v.len() == old(v).len(),
            forall|j: int|
                0 <= j < i ==> (#[trigger] v@[j])@ == pruned_catch(old(v)@[j]@, vt@, read@),
            forall|j: int| i <= j < v.len() ==> #[trigger] v@[j] == old(v)@[j],
        decreases v.len() - i,
    {
        assert(decreases_to!(*old(v) => v@[i as int]));
        prune_catch(&mut v[i], vt, read);
        i += 1;
    }
    assert(catch_list(v@) =~= pruned_catches(catch_list(old(v)@), vt@, read@));
}

/// `prune` on each of a list, dead stores left in place.
#[verifier::loop_isolation(false)]
pub fn prune_each(v: &mut Vec<Stmt>, vt: &VarTable, read: &HashSet<u32>)
    ensures
        stmts(final(v)@) == pruned_each(stmts(old(v)@), vt@, read@),
    decreases *old(v),
{
    let mut i: usize = 0;
    while i < v.len()
        invariant
            i <= v.len(),
            v.len() == old(v).len(),
            forall|j: int| 0 <= j < i ==> (#[trigger] v@[j])@ == pruned(old(v)@[j]@, vt@, read@),
            forall|j: int| i <= j < v.len() ==> #[trigger] v@[j] == old(v)@[j],
        decreases v.len() - i,
    {
        assert(decreases_to!(*old(v) => v@[i as int]));
        prune(&mut v[i], vt, read);
        i += 1;
    }
    assert(stmts(v@) =~= pruned_each(stmts(old(v)@), vt@, read@));
}

/// Removes the dead stores of a statement list and prunes the others inside.
#[verifier::loop_isolation(false)]
pub fn prune_vec(v: &mut Vec<Stmt>, vt: &VarTable, read: &HashSet<u32>)
    ensures
        stmts(final(v)@) == pruned_seq(stmts(old(v)@), vt@, read@),
    decreases *old(v),
{
    let mut i: usize = 0;
    let ghost mut k: int = 0;
    while i < v.len()
        invariant
            0 <= i <= k <= old(v).len(),
            v.len() - i == old(v).len() - k,
            forall|j: int| i <= j < v.len() ==> #[trigger] v@[j] == old(v)@[j - i + k],
            stmts(v@.take(i as int)) == pruned_seq(stmts(old(v)@).take(k), vt@, read@),
        decreases v.len() - i,
    {
        let ghost before = stmts(v@.take(i as int));
        let ghost done = stmts(old(v)@).take(k + 1);
        assert(done.drop_last() =~= stmts(old(v)@).take(k));
        assert(done.last() == v@[i as int]@);
        if is_dead(&v[i], vt, read) {
            match dead_rest(&v[i]) {
                Some(e) => {
                    v[i] = Stmt::ExprStmt(e);
                    i += 1;
                    assert(stmts(v@.take(i as int)) =~= before.push(StmtV::ExprStmt(e@)));
                },
                None => {
                    let ghost whole = v@;
                    v.remove(i);
                    assert(v@.take(i as int) =~= whole.take(i as int));
                    assert(stmts(v@.take(i as int)) =~= before);
                },
            }
        } else {
            assert(decreases_to!(*old(v) => v@[i as int]));
            prune(&mut v[i], vt, read);
            i += 1;
            assert(stmts(v@.take(i as int)) =~= before.push(pruned(done.last(), vt@, read@)));
        }
        proof {
            k = k + 1;
            assert(stmts(v@.take(i as int)) =~= pruned_seq(done, vt@, read@));
        }
    }
    assert(v@.take(i as int) =~= v@);
    assert(stmts(old(v)@).take(k) =~= stmts(old(v)@));
}

/// Whether `s` is a dead store.
pub fn is_dead(s: &Stmt, vt: &VarTable, read: &HashSet<u32>) -> (r: bool)
    ensures
        r == is_dead_store(s@, vt@, read@),
{
    let var = match s {
        Stmt::ExprStmt(e) => match local_store(e) {
            Some((v, _)) => v,
            None => return false,
        },
        Stmt::LocalDef { var, .. } => *var,
        _ => return false,
    };
    vt.is_synthetic(var) && !vt.is_param(var) && !read.contains(&var)
}

/// The value of a dead store that must still be evaluated.
fn dead_rest(s: &Stmt) -> (r: Option<Expr>)
    ensures
        match r {
            Some(e) => dead_store_rest(s@) == seq![StmtV::ExprStmt(e@)],
            None => dead_store_rest(s@) == Seq::<StmtV>::empty(),
        },
{
    let value = match s {
        Stmt::ExprStmt(e) => match local_store(e) {
            Some((_, x)) => x,
            None => return None,
        },
        Stmt::LocalDef { init, .. } => match init {
            Some(x) => x,
            None => return None,
        },
        _ => return None,
    };
    match value {
        Expr::Method { .. }
        | Expr::New { .. }
        | Expr::AnonNew { .. }
        | Expr::Assign { .. }
        | Expr::PreIncDec { .. }
        | Expr::PostIncDec { .. } => Some(value.clone()),
        _ => None,
    }
}

/// The variables that `s` may read.
pub open spec fn read_set(s: StmtV) -> Set<u32> {
    Set::new(|v: u32| stmt_reads(s, v))
}

/// Drops every store to a made-up variable that the whole of `s` never reads; a
/// value with side effects stays as a statement.
pub fn prune_dead_synth_stores(s: &mut Stmt, vt: &VarTable)
    ensures
        final(s)@ == pruned(old(s)@, vt@, read_set(old(s)@)),
{
    let mut read: HashSet<u32> = HashSet::new();
    collect_stmt_reads(s, &mut read);
    assert(read@ =~= read_set(s@));
    prune(s, vt, &read);
}

} // verus!
