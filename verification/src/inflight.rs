//! Rethrows of the exception in flight inside `finally` blocks.
use crate::expr::{Expr, ExprV};
use crate::sizes::{
    case_size, cases_size, catch_size, catches_size, lemma_cases_size, lemma_catches_size,
    lemma_stmts_size, opt_stmt_size, stmt_size, stmts_size,
};
use crate::stmt::{
    case_groups, catch_list, empty_block, no_stmt, opt_stmt, stmts, CaseGroup, CaseGroupV, Catch,
    CatchV, Stmt, StmtV,
};
use crate::types::{JTypeV, TypeRef, TypeRefV};
use vstd::prelude::*;

verus! {

/// `throw t` of a local whose type is `Throwable`.
pub open spec fn inflight_throw(s: StmtV) -> bool {
    s matches StmtV::Throw(e) && (e matches ExprV::Local { ty, .. } && ty == TypeRefV::J(
        JTypeV::Object("java/lang/Throwable"@),
    ))
}

/// Whether `s` throws a local whose type is `Throwable`.
fn is_inflight_throw(s: &Stmt) -> (r: bool)
    ensures
        r == inflight_throw(s@),
{
    match s {
        Stmt::Throw(Expr::Local { ty, .. }) => match ty {
            TypeRef::J(t) => t.is_object("java/lang/Throwable"),
            _ => false,
        },
        _ => false,
    }
}

/// What a statement of a block becomes: nothing for a rethrow.
pub open spec fn inflight_item(s: StmtV) -> Seq<StmtV>
    decreases s, 1nat,
{
    let x = inflight_stripped(s);
    if inflight_throw(x) {
        seq![]
    } else {
        seq![x]
    }
}

/// [`inflight_branch`] where there is a branch.
pub open spec fn inflight_branch_opt(o: Option<Box<StmtV>>) -> Option<Box<StmtV>>
    decreases o, 0nat,
{
    match o {
        Some(x) => Some(Box::new(inflight_branch(*x))),
        None => None,
    }
}

/// What a branch becomes: an empty block for a rethrow.
pub open spec fn inflight_branch(s: StmtV) -> StmtV
    decreases s, 1nat,
{
    if inflight_throw(s) {
        empty_block()
    } else {
        inflight_stripped(s)
    }
}

/// The statements of a block without rethrows.
pub open spec fn inflight_items(v: Seq<StmtV>) -> Seq<StmtV>
    decreases v, 0nat,
{
    if v.len() == 0 {
        seq![]
    } else {
        inflight_items(v.drop_last()) + inflight_item(v.last())
    }
}

/// `s` without rethrows of the exception in flight.
pub open spec fn inflight_stripped(s: StmtV) -> StmtV
    decreases s, 0nat,
{
    match s {
        StmtV::Block(items) => StmtV::Block(inflight_items(items)),
        StmtV::If { cond, then_stmt, else_stmt } => StmtV::If {
            cond,
            then_stmt: Box::new(inflight_branch(*then_stmt)),
            else_stmt: inflight_branch_opt(else_stmt),
        },
        StmtV::While { cond, body } => StmtV::While {
            cond,
            body: Box::new(inflight_stripped(*body)),
        },
        StmtV::DoWhile { body, cond } => StmtV::DoWhile {
            body: Box::new(inflight_stripped(*body)),
            cond,
        },
        StmtV::For { init, cond, update, body } => StmtV::For {
            init: inflight_stripped_seq(init),
            cond,
            update,
            body: Box::new(inflight_stripped(*body)),
        },
        StmtV::ForEach { var, iterable, is_array, body } => StmtV::ForEach {
            var,
            iterable,
            is_array,
            body: Box::new(inflight_stripped(*body)),
        },
        StmtV::Switch { selector, cases, default, on_string } => StmtV::Switch {
            selector,
            cases: inflight_stripped_cases(cases),
            default: inflight_stripped_opt(default),
            on_string,
        },
        StmtV::Try { body, catches, finally } => StmtV::Try {
            body: Box::new(inflight_stripped(*body)),
            catches: inflight_stripped_catches(catches),
            finally: inflight_stripped_opt(finally),
        },
        StmtV::TryWithResources { resources, body, catches, finally } => StmtV::TryWithResources {
            resources,
            body: Box::new(inflight_stripped(*body)),
            catches: inflight_stripped_catches(catches),
            finally: inflight_stripped_opt(finally),
        },
        StmtV::Synchronized { lock, body } => StmtV::Synchronized {
            lock,
            body: Box::new(inflight_stripped(*body)),
        },
        StmtV::Labeled { label, body } => StmtV::Labeled {
            label,
            body: Box::new(inflight_stripped(*body)),
        },
        _ => s,
    }
}

/// [`inflight_stripped`] where there is a value.
pub open spec fn inflight_stripped_opt(o: Option<Box<StmtV>>) -> Option<Box<StmtV>>
    decreases o, 0nat,
{
    match o {
        Some(x) => Some(Box::new(inflight_stripped(*x))),
        None => None,
    }
}

/// [`inflight_stripped`] over a list.
pub open spec fn inflight_stripped_seq(v: Seq<StmtV>) -> Seq<StmtV>
    decreases v, 0nat,
{
    Seq::new(v.len(), |i: int| if 0 <= i < v.len() { inflight_stripped(v[i]) } else { arbitrary() })
}

/// [`inflight_stripped`] inside a switch arm.
pub open spec fn inflight_stripped_case(c: CaseGroupV) -> CaseGroupV
    decreases c, 0nat,
{
    CaseGroupV { body: inflight_stripped_seq(c.body), ..c }
}

/// [`inflight_stripped`] over a list.
pub open spec fn inflight_stripped_cases(v: Seq<CaseGroupV>) -> Seq<CaseGroupV>
    decreases v, 0nat,
{
    Seq::new(
        v.len(),
        |i: int| if 0 <= i < v.len() { inflight_stripped_case(v[i]) } else { arbitrary() },
    )
}

/// [`inflight_stripped`] inside a catch clause.
pub open spec fn inflight_stripped_catch(c: CatchV) -> CatchV
    decreases c, 0nat,
{
    CatchV { body: Box::new(inflight_stripped(*c.body)), ..c }
}

/// [`inflight_stripped`] over a list.
pub open spec fn inflight_stripped_catches(v: Seq<CatchV>) -> Seq<CatchV>
    decreases v, 0nat,
{
    Seq::new(
        v.len(),
        |i: int| if 0 <= i < v.len() { inflight_stripped_catch(v[i]) } else { arbitrary() },
    )
}

/// Drops the rethrows of the exception in flight from `s`.
pub fn strip_inflight_throws(s: &mut Stmt)
    ensures
        final(s)@ == inflight_stripped(old(s)@),
    decreases *old(s), 0nat,
{
    match s {
        Stmt::Block(items) => strip_inflight_items(items),
        Stmt::If { then_stmt, else_stmt, .. } => {
            strip_inflight_branch(then_stmt);
            strip_inflight_branch_opt(else_stmt);
        },
        Stmt::While { body, .. } => { strip_inflight_throws(body); },
        Stmt::DoWhile { body, .. } => { strip_inflight_throws(body); },
        Stmt::For { init, body, .. } => {
            strip_inflight_throws_vec(init);
            strip_inflight_throws(body);
        },
        Stmt::ForEach { body, .. } => { strip_inflight_throws(body); },
        Stmt::Switch { cases, default, .. } => {
            strip_inflight_throws_cases(cases);
            strip_inflight_throws_opt(default);
        },
        Stmt::Try { body, catches, finally } => {
            strip_inflight_throws(body);
            strip_inflight_throws_catches(catches);
            strip_inflight_throws_opt(finally);
        },
        Stmt::TryWithResources { body, catches, finally, .. } => {
            strip_inflight_throws(body);
            strip_inflight_throws_catches(catches);
            strip_inflight_throws_opt(finally);
        },
        Stmt::Synchronized { body, .. } => { strip_inflight_throws(body); },
        Stmt::Labeled { body, .. } => { strip_inflight_throws(body); },
        _ => {},
    }
}

/// `strip_inflight_throws` where there is a value.
pub fn strip_inflight_throws_opt(o: &mut Option<Box<Stmt>>)
    ensures
        opt_stmt(*final(o)) == inflight_stripped_opt(opt_stmt(*old(o))),
    decreases *old(o), 0nat,
{
    if let Some(x) = o {
        strip_inflight_throws(x);
    }
}

/// `strip_inflight_throws` over a list.
#[verifier::loop_isolation(false)]
pub fn strip_inflight_throws_vec(v: &mut Vec<Stmt>)
    ensures
        stmts(final(v)@) == inflight_stripped_seq(stmts(old(v)@)),
    decreases *old(v), 0nat,
{
    let mut i: usize = 0;
    while i < v.len()
        invariant
            i <= v.len(),
            v.len() == old(v).len(),
            forall|j: int| 0 <= j < i ==> (#[trigger] v@[j])@ == inflight_stripped(old(v)@[j]@),
            forall|j: int| i <= j < v.len() ==> #[trigger] v@[j] == old(v)@[j],
        decreases v.len() - i,
    {
        assert(decreases_to!(*old(v) => v@[i as int]));
        strip_inflight_throws(&mut v[i]);
        i += 1;
    }
    assert(stmts(v@) =~= inflight_stripped_seq(stmts(old(v)@)));
}

/// `strip_inflight_throws` inside a switch arm.
pub fn strip_inflight_throws_case(c: &mut CaseGroup)
    ensures
        final(c)@ == inflight_stripped_case(old(c)@),
    decreases *old(c), 0nat,
{
    strip_inflight_throws_vec(&mut c.body);
}

/// `strip_inflight_throws` over a list.
#[verifier::loop_isolation(false)]
pub fn strip_inflight_throws_cases(v: &mut Vec<CaseGroup>)
    ensures
        case_groups(final(v)@) == inflight_stripped_cases(case_groups(old(v)@)),
    decreases *old(v), 0nat,
{
    let mut i: usize = 0;
    while i < v.len()
        invariant
            i <= v.len(),
            v.len() == old(v).len(),
            forall|j: int|
                0 <= j < i ==> (#[trigger] v@[j])@ == inflight_stripped_case(old(v)@[j]@),
            forall|j: int| i <= j < v.len() ==> #[trigger] v@[j] == old(v)@[j],
        decreases v.len() - i,
    {
        assert(decreases_to!(*old(v) => v@[i as int]));
        strip_inflight_throws_case(&mut v[i]);
        i += 1;
    }
    assert(case_groups(v@) =~= inflight_stripped_cases(case_groups(old(v)@)));
}

/// `strip_inflight_throws` inside a catch clause.
pub fn strip_inflight_throws_catch(c: &mut Catch)
    ensures
        final(c)@ == inflight_stripped_catch(old(c)@),
    decreases *old(c), 0nat,
{
    strip_inflight_throws(&mut c.body);
}

/// `strip_inflight_throws` over a list.
#[verifier::loop_isolation(false)]
pub fn strip_inflight_throws_catches(v: &mut Vec<Catch>)
    ensures
        catch_list(final(v)@) == inflight_stripped_catches(catch_list(old(v)@)),
    decreases *old(v), 0nat,
{
    let mut i: usize = 0;
    while i < v.len()
        invariant
            i <= v.len(),
            v.len() == old(v).len(),
            forall|j: int|
                0 <= j < i ==> (#[trigger] v@[j])@ == inflight_stripped_catch(old(v)@[j]@),
            forall|j: int| i <= j < v.len() ==> #[trigger] v@[j] == old(v)@[j],
        decreases v.len() - i,
    {
        assert(decreases_to!(*old(v) => v@[i as int]));
        strip_inflight_throws_catch(&mut v[i]);
        i += 1;
    }
    assert(catch_list(v@) =~= inflight_stripped_catches(catch_list(old(v)@)));
}

/// Strips the statements of a block.
#[verifier::loop_isolation(false)]
#[verifier::spinoff_prover]
fn strip_inflight_items(v: &mut Vec<Stmt>)
    ensures
        stmts(final(v)@) == inflight_items(stmts(old(v)@)),
    decreases *old(v), 0nat,
{
    let mut i: usize = 0;
    let ghost mut k: int = 0;
    while i < v.len()
        invariant
            0 <= i <= k <= old(v).len(),
            v.len() - i == old(v).len() - k,
            forall|j: int| i <= j < v.len() ==> #[trigger] v@[j] == old(v)@[j - i + k],
            stmts(v@.take(i as int)) == inflight_items(stmts(old(v)@).take(k)),
        decreases v.len() - i,
    {
        let ghost before = stmts(v@.take(i as int));
        let ghost done = stmts(old(v)@).take(k + 1);
        assert(done.drop_last() =~= stmts(old(v)@).take(k));
        assert(done.last() == v@[i as int]@);
        assert(decreases_to!(*old(v) => v@[i as int]));
        if strip_inflight_item(&mut v[i]) {
            i += 1;
            assert(stmts(v@.take(i as int)) =~= before.push(v@[i - 1]@));
        } else {
            let ghost whole = v@;
            v.remove(i);
            assert(v@.take(i as int) =~= whole.take(i as int));
            assert(stmts(v@.take(i as int)) =~= before);
        }
        proof {
            k = k + 1;
            assert(stmts(v@.take(i as int)) =~= inflight_items(done));
        }
    }
    assert(v@.take(i as int) =~= v@);
    assert(stmts(old(v)@).take(k) =~= stmts(old(v)@));
}

/// Strips one statement of a block; `false` where it goes.
fn strip_inflight_item(s: &mut Stmt) -> (keep: bool)
    ensures
        inflight_item(old(s)@) == if keep {
            seq![final(s)@]
        } else {
            seq![]
        },
    decreases *old(s), 1nat,
{
    strip_inflight_throws(s);
    !is_inflight_throw(s)
}

/// Strips a branch, where there is one.
fn strip_inflight_branch_opt(o: &mut Option<Box<Stmt>>)
    ensures
        opt_stmt(*final(o)) == inflight_branch_opt(opt_stmt(*old(o))),
    decreases *old(o), 0nat,
{
    if let Some(x) = o {
        strip_inflight_branch(x);
    }
}

/// Strips a branch.
fn strip_inflight_branch(s: &mut Stmt)
    ensures
        final(s)@ == inflight_branch(old(s)@),
    decreases *old(s), 1nat,
{
    if is_inflight_throw(s) {
        *s = no_stmt();
    } else {
        strip_inflight_throws(s);
    }
}

/// Stripping does not add to the size.
proof fn lemma_inflight_size(s: StmtV)
    ensures
        stmt_size(inflight_stripped(s)) <= stmt_size(s),
    decreases s, 0nat,
{
    assert(stmts_size(seq![]) == 0);
    match s {
        StmtV::Block(items) => { lemma_inflight_items_size(items); },
        StmtV::If { then_stmt, else_stmt, .. } => {
            lemma_inflight_size(*then_stmt);
            assert(stmt_size(empty_block()) == 1);
            assert(stmt_size(inflight_branch(*then_stmt)) <= stmt_size(*then_stmt));
            assert(else_stmt is None ==> inflight_branch_opt(else_stmt) == else_stmt);
            if let Some(x) = else_stmt {
                lemma_inflight_size(*x);
                assert(stmt_size(inflight_branch(*x)) <= stmt_size(*x));
                assert(inflight_branch_opt(else_stmt) == Some(Box::new(inflight_branch(*x))));
                assert(opt_stmt_size(inflight_branch_opt(else_stmt)) <= opt_stmt_size(else_stmt));
            }
        },
        StmtV::While { body, .. } => { lemma_inflight_size(*body);  },
        StmtV::DoWhile { body, .. } => { lemma_inflight_size(*body);  },
        StmtV::For { init, body, .. } => {
            lemma_inflight_size_seq(init);
            lemma_inflight_size(*body);
        },
        StmtV::ForEach { body, .. } => { lemma_inflight_size(*body);  },
        StmtV::Switch { cases, default, .. } => {
            lemma_inflight_size_cases(cases);
            lemma_inflight_size_opt(default);
        },
        StmtV::Try { body, catches, finally } => {
            lemma_inflight_size(*body);
            lemma_inflight_size_catches(catches);
            lemma_inflight_size_opt(finally);
        },
        StmtV::TryWithResources { body, catches, finally, .. } => {
            lemma_inflight_size(*body);
            lemma_inflight_size_catches(catches);
            lemma_inflight_size_opt(finally);
        },
        StmtV::Synchronized { body, .. } => { lemma_inflight_size(*body);  },
        StmtV::Labeled { body, .. } => { lemma_inflight_size(*body);  },
        _ => {},
    }
}

/// [`lemma_inflight_size`] where there is a statement.
proof fn lemma_inflight_size_opt(o: Option<Box<StmtV>>)
    ensures
        opt_stmt_size(inflight_stripped_opt(o)) <= opt_stmt_size(o),
    decreases o, 0nat,
{
    if let Some(x) = o {
        lemma_inflight_size(*x);
    }
}

/// [`lemma_inflight_size`] over a list.
proof fn lemma_inflight_size_seq(v: Seq<StmtV>)
    ensures
        stmts_size(inflight_stripped_seq(v)) <= stmts_size(v),
    decreases v, 0nat,
{
    if v.len() > 0 {
        lemma_inflight_size_seq(v.drop_last());
        lemma_inflight_size(v.last());
        assert(inflight_stripped_seq(v).drop_last() =~= inflight_stripped_seq(v.drop_last()));
        assert(inflight_stripped_seq(v).last() == inflight_stripped(v.last()));
    }
}

/// [`lemma_inflight_size`] over switch arms.
proof fn lemma_inflight_size_cases(v: Seq<CaseGroupV>)
    ensures
        cases_size(inflight_stripped_cases(v)) <= cases_size(v),
    decreases v, 0nat,
{
    if v.len() > 0 {
        lemma_inflight_size_cases(v.drop_last());
        lemma_inflight_size_case(v.last());
        assert(inflight_stripped_cases(v).drop_last() =~= inflight_stripped_cases(v.drop_last()));
        assert(inflight_stripped_cases(v).last() == inflight_stripped_case(v.last()));
    }
}

/// [`lemma_inflight_size`] inside a switch arm.
proof fn lemma_inflight_size_case(c: CaseGroupV)
    ensures
        case_size(inflight_stripped_case(c)) <= case_size(c),
    decreases c, 0nat,
{
    lemma_inflight_size_seq(c.body);
}

/// [`lemma_inflight_size`] over catch clauses.
proof fn lemma_inflight_size_catches(v: Seq<CatchV>)
    ensures
        catches_size(inflight_stripped_catches(v)) <= catches_size(v),
    decreases v, 0nat,
{
    if v.len() > 0 {
        lemma_inflight_size_catches(v.drop_last());
        lemma_inflight_size_catch(v.last());
        assert(
            inflight_stripped_catches(v).drop_last() =~= inflight_stripped_catches(v.drop_last())
        );
        assert(inflight_stripped_catches(v).last() == inflight_stripped_catch(v.last()));
    }
}

/// [`lemma_inflight_size`] inside a catch clause.
proof fn lemma_inflight_size_catch(c: CatchV)
    ensures
        catch_size(inflight_stripped_catch(c)) <= catch_size(c),
    decreases c, 0nat,
{
    lemma_inflight_size(*c.body);
}

/// Stripping the statements of a block does not add to the size.
proof fn lemma_inflight_items_size(v: Seq<StmtV>)
    ensures
        stmts_size(inflight_items(v)) <= stmts_size(v),
    decreases v, 0nat,
{
    if v.len() > 0 {
        let front = inflight_items(v.drop_last());
        lemma_inflight_items_size(v.drop_last());
        lemma_inflight_size(v.last());
        let x = inflight_stripped(v.last());
        assert(inflight_items(v) == front + inflight_item(v.last()));
        if inflight_throw(x) {
            assert(inflight_items(v) =~= front);
        } else {
            assert(inflight_items(v) =~= front.push(x));
            assert(inflight_items(v).drop_last() =~= front);
        }
    }
}

/// `s` without the rethrows of the exception in flight in its `finally` blocks.
pub open spec fn finally_pruned(s: StmtV) -> StmtV
    decreases stmt_size(s)
    via finally_pruned_decreases
{
    match s {
        StmtV::Block(items) => StmtV::Block(finally_pruned_seq(items)),
        StmtV::If { cond, then_stmt, else_stmt } => StmtV::If {
            cond,
            then_stmt: Box::new(finally_pruned(*then_stmt)),
            else_stmt: finally_pruned_opt(else_stmt),
        },
        StmtV::While { cond, body } => StmtV::While { cond, body: Box::new(finally_pruned(*body)) },
        StmtV::DoWhile { body, cond } => StmtV::DoWhile {
            body: Box::new(finally_pruned(*body)),
            cond,
        },
        StmtV::For { init, cond, update, body } => StmtV::For {
            init: finally_pruned_seq(init),
            cond,
            update,
            body: Box::new(finally_pruned(*body)),
        },
        StmtV::ForEach { var, iterable, is_array, body } => StmtV::ForEach {
            var,
            iterable,
            is_array,
            body: Box::new(finally_pruned(*body)),
        },
        StmtV::Switch { selector, cases, default, on_string } => StmtV::Switch {
            selector,
            cases: finally_pruned_cases(cases),
            default: finally_pruned_opt(default),
            on_string,
        },
        StmtV::Try { body, catches, finally } => StmtV::Try {
            body: Box::new(finally_pruned(*body)),
            catches: finally_pruned_catches(catches),
            finally: finally_pruned_opt(inflight_stripped_opt(finally)),
        },
        StmtV::TryWithResources { resources, body, catches, finally } => StmtV::TryWithResources {
            resources: finally_pruned_seq(resources),
            body: Box::new(finally_pruned(*body)),
            catches: finally_pruned_catches(catches),
            finally: finally_pruned_opt(inflight_stripped_opt(finally)),
        },
        StmtV::Synchronized { lock, body } => StmtV::Synchronized {
            lock,
            body: Box::new(finally_pruned(*body)),
        },
        StmtV::Labeled { label, body } => StmtV::Labeled {
            label,
            body: Box::new(finally_pruned(*body)),
        },
        _ => s,
    }
}

/// [`finally_pruned`] where there is a value.
pub open spec fn finally_pruned_opt(o: Option<Box<StmtV>>) -> Option<Box<StmtV>>
    decreases opt_stmt_size(o),
{
    match o {
        Some(x) => Some(Box::new(finally_pruned(*x))),
        None => None,
    }
}

/// [`finally_pruned`] over a list.
pub open spec fn finally_pruned_seq(v: Seq<StmtV>) -> Seq<StmtV>
    decreases stmts_size(v),
{
    if v.len() == 0 {
        seq![]
    } else {
        finally_pruned_seq(v.drop_last()).push(finally_pruned(v.last()))
    }
}

/// [`finally_pruned`] inside a switch arm.
pub open spec fn finally_pruned_case(c: CaseGroupV) -> CaseGroupV
    decreases case_size(c),
{
    CaseGroupV { body: finally_pruned_seq(c.body), ..c }
}

/// [`finally_pruned`] over a list.
pub open spec fn finally_pruned_cases(v: Seq<CaseGroupV>) -> Seq<CaseGroupV>
    decreases cases_size(v),
{
    if v.len() == 0 {
        seq![]
    } else {
        finally_pruned_cases(v.drop_last()).push(finally_pruned_case(v.last()))
    }
}

/// [`finally_pruned`] inside a catch clause.
pub open spec fn finally_pruned_catch(c: CatchV) -> CatchV
    decreases catch_size(c),
{
    CatchV { body: Box::new(finally_pruned(*c.body)), ..c }
}

/// [`finally_pruned`] over a list.
pub open spec fn finally_pruned_catches(v: Seq<CatchV>) -> Seq<CatchV>
    decreases catches_size(v),
{
    if v.len() == 0 {
        seq![]
    } else {
        finally_pruned_catches(v.drop_last()).push(finally_pruned_catch(v.last()))
    }
}

/// Drops from the `finally` blocks in `s` the rethrows of the exception in flight.
pub fn prune_finally_rethrows(s: &mut Stmt)
    ensures
        final(s)@ == finally_pruned(old(s)@),
    decreases stmt_size(old(s)@),
{
    match s {
        Stmt::Block(items) => { prune_finally_rethrows_vec(items); },
        Stmt::If { then_stmt, else_stmt, .. } => {
            prune_finally_rethrows(then_stmt);
            prune_finally_rethrows_opt(else_stmt);
        },
        Stmt::While { body, .. } => { prune_finally_rethrows(body); },
        Stmt::DoWhile { body, .. } => { prune_finally_rethrows(body); },
        Stmt::For { init, body, .. } => {
            prune_finally_rethrows_vec(init);
            prune_finally_rethrows(body);
        },
        Stmt::ForEach { body, .. } => { prune_finally_rethrows(body); },
        Stmt::Switch { cases, default, .. } => {
            prune_finally_rethrows_cases(cases);
            prune_finally_rethrows_opt(default);
        },
        Stmt::Try { body, catches, finally } => {
            prune_finally_rethrows(body);
            prune_finally_rethrows_catches(catches);
            proof { lemma_inflight_size_opt(opt_stmt(*finally)); }
            strip_inflight_throws_opt(finally);
            prune_finally_rethrows_opt(finally);
        },
        Stmt::TryWithResources { resources, body, catches, finally } => {
            prune_finally_rethrows_vec(resources);
            prune_finally_rethrows(body);
            prune_finally_rethrows_catches(catches);
            proof { lemma_inflight_size_opt(opt_stmt(*finally)); }
            strip_inflight_throws_opt(finally);
            prune_finally_rethrows_opt(finally);
        },
        Stmt::Synchronized { body, .. } => { prune_finally_rethrows(body); },
        Stmt::Labeled { body, .. } => { prune_finally_rethrows(body); },
        _ => {},
    }
}

/// `prune_finally_rethrows` where there is a value.
pub fn prune_finally_rethrows_opt(o: &mut Option<Box<Stmt>>)
    ensures
        opt_stmt(*final(o)) == finally_pruned_opt(opt_stmt(*old(o))),
    decreases opt_stmt_size(opt_stmt(*old(o))),
{
    if let Some(x) = o {
        prune_finally_rethrows(x);
    }
}

/// `prune_finally_rethrows` over a list.
#[verifier::loop_isolation(false)]
#[verifier::spinoff_prover]
pub fn prune_finally_rethrows_vec(v: &mut Vec<Stmt>)
    ensures
        stmts(final(v)@) == finally_pruned_seq(stmts(old(v)@)),
    decreases stmts_size(stmts(old(v)@)),
{
    let ghost all = stmts(v@);
    let mut i: usize = 0;
    assert(stmts(v@.take(0)) =~= seq![]);
    while i < v.len()
        invariant
            i <= v.len(),
            v.len() == old(v).len(),
            stmts(v@.take(i as int)) == finally_pruned_seq(all.take(i as int)),
            forall|j: int| i <= j < v.len() ==> #[trigger] v@[j] == old(v)@[j],
        decreases v.len() - i,
    {
        let ghost before = stmts(v@.take(i as int));
        assert(all.take(i + 1).drop_last() =~= all.take(i as int));
        assert(all.take(i + 1).last() == v@[i as int]@);
        proof {
            lemma_stmts_size(stmts(old(v)@), i as int);
        }
        prune_finally_rethrows(&mut v[i]);
        i += 1;
        assert(stmts(v@.take(i as int)) =~= before.push(v@[i - 1]@));
    }
    assert(v@.take(i as int) =~= v@);
    assert(all.take(i as int) =~= all);
}

/// `prune_finally_rethrows` inside a switch arm.
pub fn prune_finally_rethrows_case(c: &mut CaseGroup)
    ensures
        final(c)@ == finally_pruned_case(old(c)@),
    decreases case_size(old(c)@),
{
    prune_finally_rethrows_vec(&mut c.body);
}

/// `prune_finally_rethrows` over a list.
#[verifier::loop_isolation(false)]
#[verifier::spinoff_prover]
pub fn prune_finally_rethrows_cases(v: &mut Vec<CaseGroup>)
    ensures
        case_groups(final(v)@) == finally_pruned_cases(case_groups(old(v)@)),
    decreases cases_size(case_groups(old(v)@)),
{
    let ghost all = case_groups(v@);
    let mut i: usize = 0;
    assert(case_groups(v@.take(0)) =~= seq![]);
    while i < v.len()
        invariant
            i <= v.len(),
            v.len() == old(v).len(),
            case_groups(v@.take(i as int)) == finally_pruned_cases(all.take(i as int)),
            forall|j: int| i <= j < v.len() ==> #[trigger] v@[j] == old(v)@[j],
        decreases v.len() - i,
    {
        let ghost before = case_groups(v@.take(i as int));
        assert(all.take(i + 1).drop_last() =~= all.take(i as int));
        assert(all.take(i + 1).last() == v@[i as int]@);
        proof {
            lemma_cases_size(case_groups(old(v)@), i as int);
        }
        prune_finally_rethrows_case(&mut v[i]);
        i += 1;
        assert(case_groups(v@.take(i as int)) =~= before.push(v@[i - 1]@));
    }
    assert(v@.take(i as int) =~= v@);
    assert(all.take(i as int) =~= all);
}

/// `prune_finally_rethrows` inside a catch clause.
pub fn prune_finally_rethrows_catch(c: &mut Catch)
    ensures
        final(c)@ == finally_pruned_catch(old(c)@),
    decreases catch_size(old(c)@),
{
    prune_finally_rethrows(&mut c.body);
}

/// `prune_finally_rethrows` over a list.
#[verifier::loop_isolation(false)]
#[verifier::spinoff_prover]
pub fn prune_finally_rethrows_catches(v: &mut Vec<Catch>)
    ensures
        catch_list(final(v)@) == finally_pruned_catches(catch_list(old(v)@)),
    decreases catches_size(catch_list(old(v)@)),
{
    let ghost all = catch_list(v@);
    let mut i: usize = 0;
    assert(catch_list(v@.take(0)) =~= seq![]);
    while i < v.len()
        invariant
            i <= v.len(),
            v.len() == old(v).len(),
            catch_list(v@.take(i as int)) == finally_pruned_catches(all.take(i as int)),
            forall|j: int| i <= j < v.len() ==> #[trigger] v@[j] == old(v)@[j],
        decreases v.len() - i,
    {
        let ghost before = catch_list(v@.take(i as int));
        assert(all.take(i + 1).drop_last() =~= all.take(i as int));
        assert(all.take(i + 1).last() == v@[i as int]@);
        proof {
            lemma_catches_size(catch_list(old(v)@), i as int);
        }
        prune_finally_rethrows_catch(&mut v[i]);
        i += 1;
        assert(catch_list(v@.take(i as int)) =~= before.push(v@[i - 1]@));
    }
    assert(v@.take(i as int) =~= v@);
    assert(all.take(i as int) =~= all);
}

#[via_fn]
proof fn finally_pruned_decreases(s: StmtV) {
    match s {
        StmtV::Try { finally, .. } => {
            lemma_inflight_size_opt(finally);
        },
        StmtV::TryWithResources { finally, .. } => {
            lemma_inflight_size_opt(finally);
        },
        _ => {},
    }
}

} // verus!
