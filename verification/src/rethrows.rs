//! Rethrows of exceptions that the same `try` catches.
use crate::expr::{as_local, local_var};
use crate::sizes::{
    case_size, cases_size, catch_size, catches_size, lemma_cases_size, lemma_catches_size,
    lemma_stmts_size, opt_stmt_size, stmt_size, stmts_size,
};
use crate::stmt::{
    case_groups, catch_list, opt_stmt, stmts, CaseGroup, CaseGroupV, Catch, CatchV, Stmt, StmtV,
};
use std::collections::HashSet;
use vstd::prelude::*;

verus! {

broadcast use vstd::std_specs::hash::group_hash_axioms;

/// `s` throws a variable in `vars`.
pub open spec fn throws_one_of(s: StmtV, vars: Set<u32>) -> bool {
    s matches StmtV::Throw(e) && as_local(e) matches Some(v) && vars.contains(v)
}

/// What a statement of a block becomes: nothing for a `throw` of one of `vars`.
pub open spec fn throw_stripped_item(s: StmtV, vars: Set<u32>) -> Seq<StmtV>
    decreases s, 1nat,
{
    if throws_one_of(s, vars) {
        seq![]
    } else {
        seq![throws_stripped(s, vars)]
    }
}

/// The statements of a block without throws of `vars`.
pub open spec fn throws_stripped_items(v: Seq<StmtV>, vars: Set<u32>) -> Seq<StmtV>
    decreases v, 0nat,
{
    if v.len() == 0 {
        seq![]
    } else {
        throws_stripped_items(v.drop_last(), vars) + throw_stripped_item(v.last(), vars)
    }
}

/// `s` without `throw`s of one of `vars` in its blocks; handlers are not looked into.
pub open spec fn throws_stripped(s: StmtV, vars: Set<u32>) -> StmtV
    decreases s, 0nat,
{
    match s {
        StmtV::Block(items) => StmtV::Block(throws_stripped_items(items, vars)),
        StmtV::If { cond, then_stmt, else_stmt } => StmtV::If {
            cond,
            then_stmt: Box::new(throws_stripped(*then_stmt, vars)),
            else_stmt: throws_stripped_opt(else_stmt, vars),
        },
        StmtV::While { cond, body } => StmtV::While {
            cond,
            body: Box::new(throws_stripped(*body, vars)),
        },
        StmtV::DoWhile { body, cond } => StmtV::DoWhile {
            body: Box::new(throws_stripped(*body, vars)),
            cond,
        },
        StmtV::For { init, cond, update, body } => StmtV::For {
            init,
            cond,
            update,
            body: Box::new(throws_stripped(*body, vars)),
        },
        StmtV::ForEach { var, iterable, is_array, body } => StmtV::ForEach {
            var,
            iterable,
            is_array,
            body: Box::new(throws_stripped(*body, vars)),
        },
        StmtV::Switch { selector, cases, default, on_string } => StmtV::Switch {
            selector,
            cases: throws_stripped_cases(cases, vars),
            default: throws_stripped_opt(default, vars),
            on_string,
        },
        StmtV::Try { body, catches, finally } => StmtV::Try {
            body: Box::new(throws_stripped(*body, vars)),
            catches,
            finally,
        },
        StmtV::Synchronized { lock, body } => StmtV::Synchronized {
            lock,
            body: Box::new(throws_stripped(*body, vars)),
        },
        StmtV::Labeled { label, body } => StmtV::Labeled {
            label,
            body: Box::new(throws_stripped(*body, vars)),
        },
        _ => s,
    }
}

/// [`throws_stripped`] where there is a value.
pub open spec fn throws_stripped_opt(o: Option<Box<StmtV>>, vars: Set<u32>) -> Option<Box<StmtV>>
    decreases o, 0nat,
{
    match o {
        Some(x) => Some(Box::new(throws_stripped(*x, vars))),
        None => None,
    }
}

/// [`throws_stripped`] inside a switch arm.
pub open spec fn throws_stripped_case(c: CaseGroupV, vars: Set<u32>) -> CaseGroupV
    decreases c, 0nat,
{
    CaseGroupV { body: throws_stripped_seq(c.body, vars), ..c }
}

/// [`throws_stripped`] over a list.
pub open spec fn throws_stripped_cases(v: Seq<CaseGroupV>, vars: Set<u32>) -> Seq<CaseGroupV>
    decreases v, 0nat,
{
    Seq::new(
        v.len(),
        |i: int| if 0 <= i < v.len() { throws_stripped_case(v[i], vars) } else { arbitrary() },
    )
}

/// [`throws_stripped`] over a list.
pub open spec fn throws_stripped_seq(v: Seq<StmtV>, vars: Set<u32>) -> Seq<StmtV>
    decreases v, 0nat,
{
    Seq::new(
        v.len(),
        |i: int| if 0 <= i < v.len() { throws_stripped(v[i], vars) } else { arbitrary() },
    )
}

/// Drops the `throw`s of one of `vars` from the blocks in `s`; handlers are not
/// looked into.
pub fn strip_throws_of(s: &mut Stmt, vars: &HashSet<u32>)
    ensures
        final(s)@ == throws_stripped(old(s)@, vars@),
    decreases *old(s), 0nat,
{
    match s {
        Stmt::Block(items) => strip_throws_items(items, vars),
        Stmt::If { then_stmt, else_stmt, .. } => {
            strip_throws_of(then_stmt, vars);
            strip_throws_of_opt(else_stmt, vars);
        },
        Stmt::While { body, .. } => { strip_throws_of(body, vars); },
        Stmt::DoWhile { body, .. } => { strip_throws_of(body, vars); },
        Stmt::For { body, .. } => { strip_throws_of(body, vars); },
        Stmt::ForEach { body, .. } => { strip_throws_of(body, vars); },
        Stmt::Switch { cases, default, .. } => {
            strip_throws_of_cases(cases, vars);
            strip_throws_of_opt(default, vars);
        },
        Stmt::Try { body, .. } => { strip_throws_of(body, vars); },
        Stmt::Synchronized { body, .. } => { strip_throws_of(body, vars); },
        Stmt::Labeled { body, .. } => { strip_throws_of(body, vars); },
        _ => {},
    }
}

/// `strip_throws_of` where there is a value.
pub fn strip_throws_of_opt(o: &mut Option<Box<Stmt>>, vars: &HashSet<u32>)
    ensures
        opt_stmt(*final(o)) == throws_stripped_opt(opt_stmt(*old(o)), vars@),
    decreases *old(o), 0nat,
{
    if let Some(x) = o {
        strip_throws_of(x, vars);
    }
}

/// `strip_throws_of` inside a switch arm.
pub fn strip_throws_of_case(c: &mut CaseGroup, vars: &HashSet<u32>)
    ensures
        final(c)@ == throws_stripped_case(old(c)@, vars@),
    decreases *old(c), 0nat,
{
    strip_throws_of_vec(&mut c.body, vars);
}

/// `strip_throws_of` over a list.
#[verifier::loop_isolation(false)]
pub fn strip_throws_of_cases(v: &mut Vec<CaseGroup>, vars: &HashSet<u32>)
    ensures
        case_groups(final(v)@) == throws_stripped_cases(case_groups(old(v)@), vars@),
    decreases *old(v), 0nat,
{
    let mut i: usize = 0;
    while i < v.len()
        invariant
            i <= v.len(),
            v.len() == old(v).len(),
            forall|j: int|
                0 <= j < i ==> (#[trigger] v@[j])@ == throws_stripped_case(old(v)@[j]@, vars@),
            forall|j: int| i <= j < v.len() ==> #[trigger] v@[j] == old(v)@[j],
        decreases v.len() - i,
    {
        assert(decreases_to!(*old(v) => v@[i as int]));
        strip_throws_of_case(&mut v[i], vars);
        i += 1;
    }
    assert(case_groups(v@) =~= throws_stripped_cases(case_groups(old(v)@), vars@));
}

/// `strip_throws_of` over a list.
#[verifier::loop_isolation(false)]
pub fn strip_throws_of_vec(v: &mut Vec<Stmt>, vars: &HashSet<u32>)
    ensures
        stmts(final(v)@) == throws_stripped_seq(stmts(old(v)@), vars@),
    decreases *old(v), 0nat,
{
    let mut i: usize = 0;
    while i < v.len()
        invariant
            i <= v.len(),
            v.len() == old(v).len(),
            forall|j: int|
                0 <= j < i ==> (#[trigger] v@[j])@ == throws_stripped(old(v)@[j]@, vars@),
            forall|j: int| i <= j < v.len() ==> #[trigger] v@[j] == old(v)@[j],
        decreases v.len() - i,
    {
        assert(decreases_to!(*old(v) => v@[i as int]));
        strip_throws_of(&mut v[i], vars);
        i += 1;
    }
    assert(stmts(v@) =~= throws_stripped_seq(stmts(old(v)@), vars@));
}

/// Strips the statements of a block.
#[verifier::loop_isolation(false)]
#[verifier::spinoff_prover]
pub fn strip_throws_items(v: &mut Vec<Stmt>, vars: &HashSet<u32>)
    ensures
        stmts(final(v)@) == throws_stripped_items(stmts(old(v)@), vars@),
    decreases *old(v), 0nat,
{
    let mut i: usize = 0;
    let ghost mut k: int = 0;
    while i < v.len()
        invariant
            0 <= i <= k <= old(v).len(),
            v.len() - i == old(v).len() - k,
            forall|j: int| i <= j < v.len() ==> #[trigger] v@[j] == old(v)@[j - i + k],
            stmts(v@.take(i as int)) == throws_stripped_items(stmts(old(v)@).take(k), vars@),
        decreases v.len() - i,
    {
        let ghost before = stmts(v@.take(i as int));
        let ghost done = stmts(old(v)@).take(k + 1);
        assert(done.drop_last() =~= stmts(old(v)@).take(k));
        assert(done.last() == v@[i as int]@);
        assert(decreases_to!(*old(v) => v@[i as int]));
        if strip_throw_item(&mut v[i], vars) {
            i += 1;
            assert(stmts(v@.take(i as int)) =~= before.push(v@[i - 1]@));
        } else {
            let ghost whole = v@;
            v.remove(i);
            assert(v@.take(i as int) =~= whole.take(i as int));
            assert(stmts(v@.take(i as int)) =~= before);
        }
        proof {
            k = k + 1;
            assert(stmts(v@.take(i as int)) =~= throws_stripped_items(done, vars@));
        }
    }
    assert(v@.take(i as int) =~= v@);
    assert(stmts(old(v)@).take(k) =~= stmts(old(v)@));
}

/// Strips one statement of a block; `false` where it goes.
fn strip_throw_item(s: &mut Stmt, vars: &HashSet<u32>) -> (keep: bool)
    ensures
        throw_stripped_item(old(s)@, vars@) == if keep {
            seq![final(s)@]
        } else {
            seq![]
        },
    decreases *old(s), 1nat,
{
    if let Stmt::Throw(e) = s {
        if let Some(v) = local_var(e) {
            if vars.contains(&v) {
                return false;
            }
        }
    }
    strip_throws_of(s, vars);
    true
}

/// Stripping does not add to the size.
proof fn lemma_throws_stripped_size(s: StmtV, vars: Set<u32>)
    ensures
        stmt_size(throws_stripped(s, vars)) <= stmt_size(s),
    decreases s, 0nat,
{
    match s {
        StmtV::Block(items) => { lemma_items_stripped_size(items, vars); },
        StmtV::If { then_stmt, else_stmt, .. } => {
            lemma_throws_stripped_size(*then_stmt, vars);
            lemma_throws_stripped_size_opt(else_stmt, vars);
        },
        StmtV::While { body, .. } => { lemma_throws_stripped_size(*body, vars);  },
        StmtV::DoWhile { body, .. } => { lemma_throws_stripped_size(*body, vars);  },
        StmtV::For { body, .. } => { lemma_throws_stripped_size(*body, vars);  },
        StmtV::ForEach { body, .. } => { lemma_throws_stripped_size(*body, vars);  },
        StmtV::Switch { cases, default, .. } => {
            lemma_throws_stripped_size_cases(cases, vars);
            lemma_throws_stripped_size_opt(default, vars);
        },
        StmtV::Try { body, .. } => { lemma_throws_stripped_size(*body, vars);  },
        StmtV::Synchronized { body, .. } => { lemma_throws_stripped_size(*body, vars);  },
        StmtV::Labeled { body, .. } => { lemma_throws_stripped_size(*body, vars);  },
        _ => {},
    }
}

/// [`lemma_throws_stripped_size`] where there is a statement.
proof fn lemma_throws_stripped_size_opt(o: Option<Box<StmtV>>, vars: Set<u32>)
    ensures
        opt_stmt_size(throws_stripped_opt(o, vars)) <= opt_stmt_size(o),
    decreases o, 0nat,
{
    if let Some(x) = o {
        lemma_throws_stripped_size(*x, vars);
    }
}

/// [`lemma_throws_stripped_size`] over a list.
proof fn lemma_throws_stripped_size_seq(v: Seq<StmtV>, vars: Set<u32>)
    ensures
        stmts_size(throws_stripped_seq(v, vars)) <= stmts_size(v),
    decreases v, 0nat,
{
    if v.len() > 0 {
        lemma_throws_stripped_size_seq(v.drop_last(), vars);
        lemma_throws_stripped_size(v.last(), vars);
        assert(
            throws_stripped_seq(v, vars).drop_last() =~= throws_stripped_seq(v.drop_last(), vars)
        );
        assert(throws_stripped_seq(v, vars).last() == throws_stripped(v.last(), vars));
    }
}

/// [`lemma_throws_stripped_size`] over switch arms.
proof fn lemma_throws_stripped_size_cases(v: Seq<CaseGroupV>, vars: Set<u32>)
    ensures
        cases_size(throws_stripped_cases(v, vars)) <= cases_size(v),
    decreases v, 0nat,
{
    if v.len() > 0 {
        lemma_throws_stripped_size_cases(v.drop_last(), vars);
        lemma_throws_stripped_size_case(v.last(), vars);
        assert(
            throws_stripped_cases(v, vars).drop_last() =~= throws_stripped_cases(
                v.drop_last(),
                vars,
            )
        );
        assert(throws_stripped_cases(v, vars).last() == throws_stripped_case(v.last(), vars));
    }
}

/// [`lemma_throws_stripped_size`] inside a switch arm.
proof fn lemma_throws_stripped_size_case(c: CaseGroupV, vars: Set<u32>)
    ensures
        case_size(throws_stripped_case(c, vars)) <= case_size(c),
    decreases c, 0nat,
{
    lemma_throws_stripped_size_seq(c.body, vars);
}

/// Stripping the statements of a block does not add to the size.
proof fn lemma_items_stripped_size(v: Seq<StmtV>, vars: Set<u32>)
    ensures
        stmts_size(throws_stripped_items(v, vars)) <= stmts_size(v),
    decreases v, 0nat,
{
    if v.len() > 0 {
        let front = throws_stripped_items(v.drop_last(), vars);
        lemma_items_stripped_size(v.drop_last(), vars);
        lemma_throws_stripped_size(v.last(), vars);
        let item = throw_stripped_item(v.last(), vars);
        assert(throws_stripped_items(v, vars) == front + item);
        if throws_one_of(v.last(), vars) {
            assert(throws_stripped_items(v, vars) =~= front);
        } else {
            let x = throws_stripped(v.last(), vars);
            assert(throws_stripped_items(v, vars) =~= front.push(x));
            assert(throws_stripped_items(v, vars).drop_last() =~= front);
        }
    }
}

/// The variables that catch clauses bind.
pub open spec fn bound_vars(catches: Seq<CatchV>) -> Set<u32> {
    Set::new(
        |v: u32|
            v != u32::MAX && exists|i: int|
                0 <= i < catches.len() && (#[trigger] catches[i]).var == v,
    )
}

/// The variables that catch clauses bind.
fn bound(catches: &Vec<Catch>) -> (r: HashSet<u32>)
    ensures
        r@ == bound_vars(catch_list(catches@)),
{
    let mut r: HashSet<u32> = HashSet::new();
    let mut i: usize = 0;
    while i < catches.len()
        invariant
            i <= catches.len(),
            forall|v: u32| #[trigger]
                r@.contains(v) <==> v != u32::MAX && exists|j: int|
                    0 <= j < i && (#[trigger] catch_list(catches@)[j]).var == v,
        decreases catches.len() - i,
    {
        assert(catch_list(catches@)[i as int] == catches@[i as int]@);
        if catches[i].var != u32::MAX {
            r.insert(catches[i].var);
        }
        i += 1;
    }
    assert(r@ =~= bound_vars(catch_list(catches@)));
    r
}

/// `s` without, in `try` bodies, the `throw`s of variables that the same `try`'s
/// catch clauses bind.
pub open spec fn rethrows_dropped(s: StmtV) -> StmtV
    decreases stmt_size(s)
    via rethrows_dropped_decreases
{
    match s {
        StmtV::Block(items) => StmtV::Block(rethrows_dropped_seq(items)),
        StmtV::If { cond, then_stmt, else_stmt } => StmtV::If {
            cond,
            then_stmt: Box::new(rethrows_dropped(*then_stmt)),
            else_stmt: rethrows_dropped_opt(else_stmt),
        },
        StmtV::While { cond, body } => StmtV::While {
            cond,
            body: Box::new(rethrows_dropped(*body)),
        },
        StmtV::DoWhile { body, cond } => StmtV::DoWhile {
            body: Box::new(rethrows_dropped(*body)),
            cond,
        },
        StmtV::For { init, cond, update, body } => StmtV::For {
            init: rethrows_dropped_seq(init),
            cond,
            update,
            body: Box::new(rethrows_dropped(*body)),
        },
        StmtV::ForEach { var, iterable, is_array, body } => StmtV::ForEach {
            var,
            iterable,
            is_array,
            body: Box::new(rethrows_dropped(*body)),
        },
        StmtV::Switch { selector, cases, default, on_string } => StmtV::Switch {
            selector,
            cases: rethrows_dropped_cases(cases),
            default: rethrows_dropped_opt(default),
            on_string,
        },
        StmtV::Try { body, catches, finally } => StmtV::Try {
            body: Box::new(rethrows_dropped(throws_stripped(*body, bound_vars(catches)))),
            catches: rethrows_dropped_catches(catches),
            finally: rethrows_dropped_opt(finally),
        },
        StmtV::TryWithResources { resources, body, catches, finally } => StmtV::TryWithResources {
            resources: throws_stripped_seq(resources, bound_vars(catches)),
            body: Box::new(rethrows_dropped(throws_stripped(*body, bound_vars(catches)))),
            catches: rethrows_dropped_catches(catches),
            finally: rethrows_dropped_opt(finally),
        },
        StmtV::Synchronized { lock, body } => StmtV::Synchronized {
            lock,
            body: Box::new(rethrows_dropped(*body)),
        },
        StmtV::Labeled { label, body } => StmtV::Labeled {
            label,
            body: Box::new(rethrows_dropped(*body)),
        },
        _ => s,
    }
}

/// [`rethrows_dropped`] where there is a value.
pub open spec fn rethrows_dropped_opt(o: Option<Box<StmtV>>) -> Option<Box<StmtV>>
    decreases opt_stmt_size(o),
{
    match o {
        Some(x) => Some(Box::new(rethrows_dropped(*x))),
        None => None,
    }
}

/// [`rethrows_dropped`] over a list.
pub open spec fn rethrows_dropped_seq(v: Seq<StmtV>) -> Seq<StmtV>
    decreases stmts_size(v),
{
    if v.len() == 0 {
        seq![]
    } else {
        rethrows_dropped_seq(v.drop_last()).push(rethrows_dropped(v.last()))
    }
}

/// [`rethrows_dropped`] inside a switch arm.
pub open spec fn rethrows_dropped_case(c: CaseGroupV) -> CaseGroupV
    decreases case_size(c),
{
    CaseGroupV { body: rethrows_dropped_seq(c.body), ..c }
}

/// [`rethrows_dropped`] over a list.
pub open spec fn rethrows_dropped_cases(v: Seq<CaseGroupV>) -> Seq<CaseGroupV>
    decreases cases_size(v),
{
    if v.len() == 0 {
        seq![]
    } else {
        rethrows_dropped_cases(v.drop_last()).push(rethrows_dropped_case(v.last()))
    }
}

/// [`rethrows_dropped`] inside a catch clause.
pub open spec fn rethrows_dropped_catch(c: CatchV) -> CatchV
    decreases catch_size(c),
{
    CatchV { body: Box::new(rethrows_dropped(*c.body)), ..c }
}

/// [`rethrows_dropped`] over a list.
pub open spec fn rethrows_dropped_catches(v: Seq<CatchV>) -> Seq<CatchV>
    decreases catches_size(v),
{
    if v.len() == 0 {
        seq![]
    } else {
        rethrows_dropped_catches(v.drop_last()).push(rethrows_dropped_catch(v.last()))
    }
}

/// Drops from `try` bodies the `throw`s of variables that the same `try`'s catch
/// clauses bind.
pub fn drop_rethrows(s: &mut Stmt)
    ensures
        final(s)@ == rethrows_dropped(old(s)@),
    decreases stmt_size(old(s)@),
{
    match s {
        Stmt::Block(items) => { drop_rethrows_vec(items); },
        Stmt::If { then_stmt, else_stmt, .. } => {
            drop_rethrows(then_stmt);
            drop_rethrows_opt(else_stmt);
        },
        Stmt::While { body, .. } => { drop_rethrows(body); },
        Stmt::DoWhile { body, .. } => { drop_rethrows(body); },
        Stmt::For { init, body, .. } => { drop_rethrows_vec(init); drop_rethrows(body); },
        Stmt::ForEach { body, .. } => { drop_rethrows(body); },
        Stmt::Switch { cases, default, .. } => {
            drop_rethrows_cases(cases);
            drop_rethrows_opt(default);
        },
        Stmt::Try { body, catches, finally } => {
            let vars = bound(catches);
            proof { lemma_throws_stripped_size(body@, vars@); }
            strip_throws_of(body, &vars);
            drop_rethrows(body);
            drop_rethrows_catches(catches);
            drop_rethrows_opt(finally);
        },
        Stmt::TryWithResources { resources, body, catches, finally } => {
            let vars = bound(catches);
            proof { lemma_throws_stripped_size(body@, vars@); }
            strip_throws_of_vec(resources, &vars);
            strip_throws_of(body, &vars);
            drop_rethrows(body);
            drop_rethrows_catches(catches);
            drop_rethrows_opt(finally);
        },
        Stmt::Synchronized { body, .. } => { drop_rethrows(body); },
        Stmt::Labeled { body, .. } => { drop_rethrows(body); },
        _ => {},
    }
}

/// `drop_rethrows` where there is a value.
pub fn drop_rethrows_opt(o: &mut Option<Box<Stmt>>)
    ensures
        opt_stmt(*final(o)) == rethrows_dropped_opt(opt_stmt(*old(o))),
    decreases opt_stmt_size(opt_stmt(*old(o))),
{
    if let Some(x) = o {
        drop_rethrows(x);
    }
}

/// `drop_rethrows` over a list.
#[verifier::loop_isolation(false)]
pub fn drop_rethrows_vec(v: &mut Vec<Stmt>)
    ensures
        stmts(final(v)@) == rethrows_dropped_seq(stmts(old(v)@)),
    decreases stmts_size(stmts(old(v)@)),
{
    let ghost all = stmts(v@);
    let mut i: usize = 0;
    assert(stmts(v@.take(0)) =~= seq![]);
    while i < v.len()
        invariant
            i <= v.len(),
            v.len() == old(v).len(),
            stmts(v@.take(i as int)) == rethrows_dropped_seq(all.take(i as int)),
            forall|j: int| i <= j < v.len() ==> #[trigger] v@[j] == old(v)@[j],
        decreases v.len() - i,
    {
        let ghost before = stmts(v@.take(i as int));
        assert(all.take(i + 1).drop_last() =~= all.take(i as int));
        assert(all.take(i + 1).last() == v@[i as int]@);
        proof {
            lemma_stmts_size(stmts(old(v)@), i as int);
        }
        drop_rethrows(&mut v[i]);
        i += 1;
        assert(stmts(v@.take(i as int)) =~= before.push(v@[i - 1]@));
    }
    assert(v@.take(i as int) =~= v@);
    assert(all.take(i as int) =~= all);
}

/// `drop_rethrows` inside a switch arm.
pub fn drop_rethrows_case(c: &mut CaseGroup)
    ensures
        final(c)@ == rethrows_dropped_case(old(c)@),
    decreases case_size(old(c)@),
{
    drop_rethrows_vec(&mut c.body);
}

/// `drop_rethrows` over a list.
#[verifier::loop_isolation(false)]
pub fn drop_rethrows_cases(v: &mut Vec<CaseGroup>)
    ensures
        case_groups(final(v)@) == rethrows_dropped_cases(case_groups(old(v)@)),
    decreases cases_size(case_groups(old(v)@)),
{
    let ghost all = case_groups(v@);
    let mut i: usize = 0;
    assert(case_groups(v@.take(0)) =~= seq![]);
    while i < v.len()
        invariant
            i <= v.len(),
            v.len() == old(v).len(),
            case_groups(v@.take(i as int)) == rethrows_dropped_cases(all.take(i as int)),
            forall|j: int| i <= j < v.len() ==> #[trigger] v@[j] == old(v)@[j],
        decreases v.len() - i,
    {
        let ghost before = case_groups(v@.take(i as int));
        assert(all.take(i + 1).drop_last() =~= all.take(i as int));
        assert(all.take(i + 1).last() == v@[i as int]@);
        proof {
            lemma_cases_size(case_groups(old(v)@), i as int);
        }
        drop_rethrows_case(&mut v[i]);
        i += 1;
        assert(case_groups(v@.take(i as int)) =~= before.push(v@[i - 1]@));
    }
    assert(v@.take(i as int) =~= v@);
    assert(all.take(i as int) =~= all);
}

/// `drop_rethrows` inside a catch clause.
pub fn drop_rethrows_catch(c: &mut Catch)
    ensures
        final(c)@ == rethrows_dropped_catch(old(c)@),
    decreases catch_size(old(c)@),
{
    drop_rethrows(&mut c.body);
}

/// `drop_rethrows` over a list.
#[verifier::loop_isolation(false)]
pub fn drop_rethrows_catches(v: &mut Vec<Catch>)
    ensures
        catch_list(final(v)@) == rethrows_dropped_catches(catch_list(old(v)@)),
    decreases catches_size(catch_list(old(v)@)),
{
    let ghost all = catch_list(v@);
    let mut i: usize = 0;
    assert(catch_list(v@.take(0)) =~= seq![]);
    while i < v.len()
        invariant
            i <= v.len(),
            v.len() == old(v).len(),
            catch_list(v@.take(i as int)) == rethrows_dropped_catches(all.take(i as int)),
            forall|j: int| i <= j < v.len() ==> #[trigger] v@[j] == old(v)@[j],
        decreases v.len() - i,
    {
        let ghost before = catch_list(v@.take(i as int));
        assert(all.take(i + 1).drop_last() =~= all.take(i as int));
        assert(all.take(i + 1).last() == v@[i as int]@);
        proof {
            lemma_catches_size(catch_list(old(v)@), i as int);
        }
        drop_rethrows_catch(&mut v[i]);
        i += 1;
        assert(catch_list(v@.take(i as int)) =~= before.push(v@[i - 1]@));
    }
    assert(v@.take(i as int) =~= v@);
    assert(all.take(i as int) =~= all);
}

#[via_fn]
proof fn rethrows_dropped_decreases(s: StmtV) {
    match s {
        StmtV::Try { body, catches, .. } => {
            lemma_throws_stripped_size(*body, bound_vars(catches));
        },
        StmtV::TryWithResources { body, catches, .. } => {
            lemma_throws_stripped_size(*body, bound_vars(catches));
        },
        _ => {},
    }
}

} // verus!
