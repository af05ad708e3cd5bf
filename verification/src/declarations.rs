//! One declaration per variable and scope.
use crate::expr::{Expr, ExprV};
use crate::merged_news::{make_store, store};
use crate::stmt::{
    case_groups, catch_list, empty_block, no_stmt, opt_stmt, stmts, CaseGroup, CaseGroupV, Catch,
    CatchV, Stmt, StmtV,
};
use crate::text::contains_u32;
use crate::types::{JType, JTypeV, TypeRef, TypeRefV};
use vstd::prelude::*;

verus! {

/// A declaration of a variable that an open scope already declares: its
/// initialiser as an assignment, or nothing.
pub open spec fn redeclared(var: u32, init: Option<ExprV>) -> StmtV {
    match init {
        Some(e) => store(var, TypeRefV::J(JTypeV::Int), e),
        None => empty_block(),
    }
}

/// `s` without repeated declarations, and the declared variables after it. A
/// nested scope ends with its declarations.
pub open spec fn deduped(s: StmtV, scope: Seq<u32>) -> (StmtV, Seq<u32>)
    decreases s,
{
    match s {
        StmtV::Block(items) => (StmtV::Block(deduped_seq(items, scope).0), scope),
        StmtV::LocalDef { var, init, is_final, force_type } => if scope.contains(var) {
            (redeclared(var, init), scope)
        } else {
            (s, scope.push(var))
        },
        StmtV::If { cond, then_stmt, else_stmt } => {
            let (then_stmt1, scope1) = deduped(*then_stmt, scope);
            let (else_stmt1, scope2) = deduped_opt(else_stmt, scope1);
            (StmtV::If { cond, then_stmt: Box::new(then_stmt1), else_stmt: else_stmt1 }, scope2)
        },
        StmtV::While { cond, body } => {
            let (body1, scope1) = deduped(*body, scope);
            (StmtV::While { cond, body: Box::new(body1) }, scope1)
        },
        StmtV::DoWhile { body, cond } => {
            let (body1, scope1) = deduped(*body, scope);
            (StmtV::DoWhile { body: Box::new(body1), cond }, scope1)
        },
        StmtV::For { init, cond, update, body } => {
            let (init1, scope1) = deduped_seq(init, scope);
            (
                StmtV::For { init: init1, cond, update, body: Box::new(deduped(*body, scope1).0) },
                scope,
            )
        },
        StmtV::ForEach { var, iterable, is_array, body } => (
            StmtV::ForEach {
                var,
                iterable,
                is_array,
                body: Box::new(deduped(*body, scope.push(var)).0),
            },
            scope,
        ),
        StmtV::Switch { selector, cases, default, on_string } => {
            let (cases1, scope1) = deduped_cases(cases, scope);
            let (default1, scope2) = deduped_opt(default, scope1);
            (StmtV::Switch { selector, cases: cases1, default: default1, on_string }, scope2)
        },
        StmtV::Try { body, catches, finally } => {
            let (body1, scope1) = deduped(*body, scope);
            let (catches1, scope2) = deduped_catches(catches, scope1);
            let (finally1, scope3) = deduped_opt(finally, scope2);
            (StmtV::Try { body: Box::new(body1), catches: catches1, finally: finally1 }, scope3)
        },
        StmtV::TryWithResources { resources, body, catches, finally } => {
            let (resources1, scope1) = deduped_seq(resources, scope);
            let (body1, scope2) = deduped(*body, scope1);
            let (catches1, scope3) = deduped_catches(catches, scope2);
            (
                StmtV::TryWithResources {
                    resources: resources1,
                    body: Box::new(body1),
                    catches: catches1,
                    finally: deduped_opt(finally, scope3).0,
                },
                scope,
            )
        },
        StmtV::Synchronized { lock, body } => {
            let (body1, scope1) = deduped(*body, scope);
            (StmtV::Synchronized { lock, body: Box::new(body1) }, scope1)
        },
        StmtV::Labeled { label, body } => {
            let (body1, scope1) = deduped(*body, scope);
            (StmtV::Labeled { label, body: Box::new(body1) }, scope1)
        },
        _ => (s, scope),
    }
}

/// [`deduped`] where there is a value.
pub open spec fn deduped_opt(
    o: Option<Box<StmtV>>,
    scope: Seq<u32>,
) -> (Option<Box<StmtV>>, Seq<u32>)
    decreases o,
{
    match o {
        Some(x) => {
            let (y, scope1) = deduped(*x, scope);
            (Some(Box::new(y)), scope1)
        },
        None => (None, scope),
    }
}

/// [`deduped`] over a list, in order.
pub open spec fn deduped_seq(v: Seq<StmtV>, scope: Seq<u32>) -> (Seq<StmtV>, Seq<u32>)
    decreases v,
{
    if v.len() == 0 {
        (seq![], scope)
    } else {
        let (front, scope1) = deduped_seq(v.drop_last(), scope);
        let (last, scope2) = deduped(v.last(), scope1);
        (front.push(last), scope2)
    }
}

/// [`deduped`] inside a switch arm.
pub open spec fn deduped_case(c: CaseGroupV, scope: Seq<u32>) -> (CaseGroupV, Seq<u32>)
    decreases c,
{
    (CaseGroupV { body: deduped_seq(c.body, scope).0, ..c }, scope)
}

/// [`deduped`] over a list, in order.
pub open spec fn deduped_cases(v: Seq<CaseGroupV>, scope: Seq<u32>) -> (Seq<CaseGroupV>, Seq<u32>)
    decreases v,
{
    if v.len() == 0 {
        (seq![], scope)
    } else {
        let (front, scope1) = deduped_cases(v.drop_last(), scope);
        let (last, scope2) = deduped_case(v.last(), scope1);
        (front.push(last), scope2)
    }
}

/// [`deduped`] inside a catch clause.
pub open spec fn deduped_catch(c: CatchV, scope: Seq<u32>) -> (CatchV, Seq<u32>)
    decreases c,
{
    let inner = if c.var != u32::MAX { scope.push(c.var) } else { scope };
    (CatchV { body: Box::new(deduped(*c.body, inner).0), ..c }, scope)
}

/// [`deduped`] over a list, in order.
pub open spec fn deduped_catches(v: Seq<CatchV>, scope: Seq<u32>) -> (Seq<CatchV>, Seq<u32>)
    decreases v,
{
    if v.len() == 0 {
        (seq![], scope)
    } else {
        let (front, scope1) = deduped_catches(v.drop_last(), scope);
        let (last, scope2) = deduped_catch(v.last(), scope1);
        (front.push(last), scope2)
    }
}

/// Turns declarations of variables that an open scope already declares into
/// assignments. `scope` holds the variables declared in the open scopes.
pub fn dedupe_walk(s: &mut Stmt, scope: &mut Vec<u32>)
    ensures
        final(s)@ == deduped(old(s)@, old(scope)@).0,
        final(scope)@ == deduped(old(s)@, old(scope)@).1,
        old(scope)@.is_prefix_of(final(scope)@),
    decreases *old(s),
{
    match s {
        Stmt::Block(items) => {
            let n = scope.len();
            dedupe_walk_vec(items, scope);
            scope.truncate(n);
            assert(scope@ =~= old(scope)@);
        },
        Stmt::LocalDef { var, .. } => { let var = *var; declare_local(s, var, scope); },
        Stmt::If { then_stmt, else_stmt, .. } => {
            dedupe_walk(then_stmt, scope);
            dedupe_walk_opt(else_stmt, scope);
        },
        Stmt::While { body, .. } => { dedupe_walk(body, scope); },
        Stmt::DoWhile { body, .. } => { dedupe_walk(body, scope); },
        Stmt::For { init, body, .. } => {
            let n = scope.len();
            dedupe_walk_vec(init, scope);
            dedupe_walk(body, scope);
            scope.truncate(n);
            assert(scope@ =~= old(scope)@);
        },
        Stmt::ForEach { var, body, .. } => {
            let n = scope.len();
            scope.push(*var);
            dedupe_walk(body, scope);
            scope.truncate(n);
            assert(scope@ =~= old(scope)@);
        },
        Stmt::Switch { cases, default, .. } => {
            dedupe_walk_cases(cases, scope);
            dedupe_walk_opt(default, scope);
        },
        Stmt::Try { body, catches, finally } => {
            dedupe_walk(body, scope);
            dedupe_walk_catches(catches, scope);
            dedupe_walk_opt(finally, scope);
        },
        Stmt::TryWithResources { resources, body, catches, finally } => {
            let n = scope.len();
            dedupe_walk_vec(resources, scope);
            dedupe_walk(body, scope);
            dedupe_walk_catches(catches, scope);
            dedupe_walk_opt(finally, scope);
            scope.truncate(n);
            assert(scope@ =~= old(scope)@);
        },
        Stmt::Synchronized { body, .. } => { dedupe_walk(body, scope); },
        Stmt::Labeled { body, .. } => { dedupe_walk(body, scope); },
        _ => {},
    }
}

/// `dedupe_walk` where there is a value.
pub fn dedupe_walk_opt(o: &mut Option<Box<Stmt>>, scope: &mut Vec<u32>)
    ensures
        opt_stmt(*final(o)) == deduped_opt(opt_stmt(*old(o)), old(scope)@).0,
        final(scope)@ == deduped_opt(opt_stmt(*old(o)), old(scope)@).1,
        old(scope)@.is_prefix_of(final(scope)@),
    decreases *old(o),
{
    if let Some(x) = o {
        dedupe_walk(x, scope);
    }
}

/// `dedupe_walk` over a list, in order.
#[verifier::loop_isolation(false)]
pub fn dedupe_walk_vec(v: &mut Vec<Stmt>, scope: &mut Vec<u32>)
    ensures
        stmts(final(v)@) == deduped_seq(stmts(old(v)@), old(scope)@).0,
        final(scope)@ == deduped_seq(stmts(old(v)@), old(scope)@).1,
        old(scope)@.is_prefix_of(final(scope)@),
    decreases *old(v),
{
    let mut i: usize = 0;
    assert(stmts(v@.take(0)) =~= seq![]);
    while i < v.len()
        invariant
            i <= v.len(),
            v.len() == old(v).len(),
            stmts(v@.take(i as int)) == deduped_seq(stmts(old(v)@).take(i as int), old(scope)@).0,
            scope@ == deduped_seq(stmts(old(v)@).take(i as int), old(scope)@).1,
            forall|j: int| i <= j < v.len() ==> #[trigger] v@[j] == old(v)@[j],
            old(scope)@.is_prefix_of(scope@),
        decreases v.len() - i,
    {
        let ghost before = stmts(v@.take(i as int));
        let ghost done = stmts(old(v)@).take(i + 1);
        assert(done.drop_last() =~= stmts(old(v)@).take(i as int));
        assert(done.last() == v@[i as int]@);
        assert(decreases_to!(*old(v) => v@[i as int]));
        dedupe_walk(&mut v[i], scope);
        i += 1;
        assert(stmts(v@.take(i as int)) =~= before.push(v@[i - 1]@));
    }
    assert(v@.take(i as int) =~= v@);
    assert(stmts(old(v)@).take(i as int) =~= stmts(old(v)@));
}

/// `dedupe_walk` inside a switch arm.
pub fn dedupe_walk_case(c: &mut CaseGroup, scope: &mut Vec<u32>)
    ensures
        final(c)@ == deduped_case(old(c)@, old(scope)@).0,
        final(scope)@ == deduped_case(old(c)@, old(scope)@).1,
        old(scope)@.is_prefix_of(final(scope)@),
    decreases *old(c),
{
    let n = scope.len();
    dedupe_walk_vec(&mut c.body, scope);
    scope.truncate(n);
    assert(scope@ =~= old(scope)@);
}

/// `dedupe_walk` over a list, in order.
#[verifier::loop_isolation(false)]
pub fn dedupe_walk_cases(v: &mut Vec<CaseGroup>, scope: &mut Vec<u32>)
    ensures
        case_groups(final(v)@) == deduped_cases(case_groups(old(v)@), old(scope)@).0,
        final(scope)@ == deduped_cases(case_groups(old(v)@), old(scope)@).1,
        old(scope)@.is_prefix_of(final(scope)@),
    decreases *old(v),
{
    let mut i: usize = 0;
    assert(case_groups(v@.take(0)) =~= seq![]);
    while i < v.len()
        invariant
            i <= v.len(),
            v.len() == old(v).len(),
            case_groups(v@.take(i as int)) == deduped_cases(
                case_groups(old(v)@).take(i as int),
                old(scope)@,
            ).0,
            scope@ == deduped_cases(case_groups(old(v)@).take(i as int), old(scope)@).1,
            forall|j: int| i <= j < v.len() ==> #[trigger] v@[j] == old(v)@[j],
            old(scope)@.is_prefix_of(scope@),
        decreases v.len() - i,
    {
        let ghost before = case_groups(v@.take(i as int));
        let ghost done = case_groups(old(v)@).take(i + 1);
        assert(done.drop_last() =~= case_groups(old(v)@).take(i as int));
        assert(done.last() == v@[i as int]@);
        assert(decreases_to!(*old(v) => v@[i as int]));
        dedupe_walk_case(&mut v[i], scope);
        i += 1;
        assert(case_groups(v@.take(i as int)) =~= before.push(v@[i - 1]@));
    }
    assert(v@.take(i as int) =~= v@);
    assert(case_groups(old(v)@).take(i as int) =~= case_groups(old(v)@));
}

/// `dedupe_walk` inside a catch clause.
pub fn dedupe_walk_catch(c: &mut Catch, scope: &mut Vec<u32>)
    ensures
        final(c)@ == deduped_catch(old(c)@, old(scope)@).0,
        final(scope)@ == deduped_catch(old(c)@, old(scope)@).1,
        old(scope)@.is_prefix_of(final(scope)@),
    decreases *old(c),
{
    let n = scope.len();
    if c.var != u32::MAX {
        scope.push(c.var);
    }
    dedupe_walk(&mut c.body, scope);
    scope.truncate(n);
    assert(scope@ =~= old(scope)@);
}

/// `dedupe_walk` over a list, in order.
#[verifier::loop_isolation(false)]
pub fn dedupe_walk_catches(v: &mut Vec<Catch>, scope: &mut Vec<u32>)
    ensures
        catch_list(final(v)@) == deduped_catches(catch_list(old(v)@), old(scope)@).0,
        final(scope)@ == deduped_catches(catch_list(old(v)@), old(scope)@).1,
        old(scope)@.is_prefix_of(final(scope)@),
    decreases *old(v),
{
    let mut i: usize = 0;
    assert(catch_list(v@.take(0)) =~= seq![]);
    while i < v.len()
        invariant
            i <= v.len(),
            v.len() == old(v).len(),
            catch_list(v@.take(i as int)) == deduped_catches(
                catch_list(old(v)@).take(i as int),
                old(scope)@,
            ).0,
            scope@ == deduped_catches(catch_list(old(v)@).take(i as int), old(scope)@).1,
            forall|j: int| i <= j < v.len() ==> #[trigger] v@[j] == old(v)@[j],
            old(scope)@.is_prefix_of(scope@),
        decreases v.len() - i,
    {
        let ghost before = catch_list(v@.take(i as int));
        let ghost done = catch_list(old(v)@).take(i + 1);
        assert(done.drop_last() =~= catch_list(old(v)@).take(i as int));
        assert(done.last() == v@[i as int]@);
        assert(decreases_to!(*old(v) => v@[i as int]));
        dedupe_walk_catch(&mut v[i], scope);
        i += 1;
        assert(catch_list(v@.take(i as int)) =~= before.push(v@[i - 1]@));
    }
    assert(v@.take(i as int) =~= v@);
    assert(catch_list(old(v)@).take(i as int) =~= catch_list(old(v)@));
}

/// Declares `var`, or replaces its repeated declaration.
fn declare_local(s: &mut Stmt, var: u32, scope: &mut Vec<u32>)
    requires
        old(s)@ matches StmtV::LocalDef { var: v, .. } && v == var,
    ensures
        (final(s)@, final(scope)@) == deduped(old(s)@, old(scope)@),
        old(scope)@.is_prefix_of(final(scope)@),
{
    if in_scope(scope, var) {
        let mut taken: Option<Expr> = None;
        if let Stmt::LocalDef { init, .. } = s {
            core::mem::swap(init, &mut taken);
        }
        match taken {
            Some(e) => {
                *s = make_store(var, &TypeRef::J(JType::Int), e);
            },
            None => {
                *s = no_stmt();
            },
        }
    } else {
        scope.push(var);
    }
}

/// Whether an open scope declares `v`.
pub fn in_scope(scope: &Vec<u32>, v: u32) -> (r: bool)
    ensures
        r == scope@.contains(v),
{
    contains_u32(scope, v)
}

/// Keeps the first declaration of a variable among nested scopes and turns the
/// others into assignments; sibling scopes may each declare.
pub fn dedupe_declarations(body: &mut Stmt)
    ensures
        final(body)@ == deduped(old(body)@, seq![]).0,
{
    let mut scope: Vec<u32> = Vec::new();
    assert(scope@ =~= seq![]);
    dedupe_walk(body, &mut scope);
}

} // verus!
