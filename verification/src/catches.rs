//! Catch clauses: their variables, names and types.
use crate::expr::{Expr, ExprV};
use crate::merged_news::{assigned, assigned_local};
use crate::rewrite::{
    first_leaf, first_removed, first_stmt, lemma_first_removed_size, lemma_renamed_until_size,
    remove_first_stmt, renamed_until, rewrite_var_until_assign, throwable, throwable_type,
};
use crate::sizes::{
    case_size, cases_size, catch_size, catches_size, lemma_cases_size, lemma_catches_size,
    lemma_stmts_size, opt_stmt_size, stmt_size, stmts_size,
};
use crate::stmt::{
    case_groups, catch_list, is_empty_block, opt_stmt, stmts, CaseGroup, CaseGroupV, Catch, CatchV,
    Stmt, StmtV,
};
use crate::text::{append_decimal, contains_string, lemma_numbered_taken, numbered};
use crate::types::{
    clone_strings, erase, object_type, str_eq, strs, JType, JTypeV, TypeRef, TypeRefV,
};
use crate::var::{
    has_var, is_synthetic, next_id, var_infos, var_slot, with_type, with_var, VarInfoV, VarTable,
    VarTableV,
};
use vstd::prelude::*;

verus! {

// ---------------------------------------------------------------------
// Variables of catch clauses.

/// The variable that a handler's first statement stores the exception to.
pub open spec fn head_store(body: StmtV) -> Option<u32> {
    match first_leaf(body) {
        Some(x) => match x {
            StmtV::LocalDef { var, .. } => Some(var),
            _ => assigned_local(x),
        },
        None => None,
    }
}

/// The type a catch clause gives its variable.
pub open spec fn caught_type(c: CatchV) -> TypeRefV {
    if c.exc.len() > 0 {
        TypeRefV::J(JTypeV::Object(c.exc[0]))
    } else {
        throwable()
    }
}

/// The name a catch variable takes from the variable it was stored to.
pub open spec fn caught_name(vt: VarTableV, v: u32) -> Seq<char> {
    if is_synthetic(vt, v) {
        "e"@
    } else {
        vt.vars[v as int].name
    }
}

/// The table with the catch variable of `c`, whose handler stores to `v`.
pub open spec fn with_caught(vt: VarTableV, c: CatchV, v: u32) -> VarTableV {
    with_var(vt, var_slot(vt, v), caught_name(vt, v), caught_type(c))
}

/// A handler body whose store to `v` is now the binding of `to`.
pub open spec fn bound_body(body: StmtV, v: u32, to: u32) -> StmtV {
    renamed_until(first_removed(body), v, to).0
}

/// `s` and the table with a variable bound in each catch clause whose handler
/// starts by storing the exception.
pub open spec fn catch_vars_resolved(s: StmtV, vt: VarTableV) -> (StmtV, VarTableV)
    decreases stmt_size(s),
{
    match s {
        StmtV::Block(items) => {
            let (items1, vt1) = catch_vars_resolved_seq(items, vt);
            (StmtV::Block(items1), vt1)
        },
        StmtV::If { cond, then_stmt, else_stmt } => {
            let (then_stmt1, vt1) = catch_vars_resolved(*then_stmt, vt);
            let (else_stmt1, vt2) = catch_vars_resolved_opt(else_stmt, vt1);
            (StmtV::If { cond, then_stmt: Box::new(then_stmt1), else_stmt: else_stmt1 }, vt2)
        },
        StmtV::While { cond, body } => {
            let (body1, vt1) = catch_vars_resolved(*body, vt);
            (StmtV::While { cond, body: Box::new(body1) }, vt1)
        },
        StmtV::DoWhile { body, cond } => {
            let (body1, vt1) = catch_vars_resolved(*body, vt);
            (StmtV::DoWhile { body: Box::new(body1), cond }, vt1)
        },
        StmtV::For { init, cond, update, body } => {
            let (init1, vt1) = catch_vars_resolved_seq(init, vt);
            let (body1, vt2) = catch_vars_resolved(*body, vt1);
            (StmtV::For { init: init1, cond, update, body: Box::new(body1) }, vt2)
        },
        StmtV::ForEach { var, iterable, is_array, body } => {
            let (body1, vt1) = catch_vars_resolved(*body, vt);
            (StmtV::ForEach { var, iterable, is_array, body: Box::new(body1) }, vt1)
        },
        StmtV::Switch { selector, cases, default, on_string } => {
            let (cases1, vt1) = catch_vars_resolved_cases(cases, vt);
            let (default1, vt2) = catch_vars_resolved_opt(default, vt1);
            (StmtV::Switch { selector, cases: cases1, default: default1, on_string }, vt2)
        },
        StmtV::Try { body, catches, finally } => {
            let (body1, vt1) = catch_vars_resolved(*body, vt);
            let (catches1, vt2) = catch_vars_resolved_catches(catches, vt1);
            let (finally1, vt3) = catch_vars_resolved_opt(finally, vt2);
            (StmtV::Try { body: Box::new(body1), catches: catches1, finally: finally1 }, vt3)
        },
        StmtV::TryWithResources { resources, body, catches, finally } => {
            let (resources1, vt1) = catch_vars_resolved_seq(resources, vt);
            let (body1, vt2) = catch_vars_resolved(*body, vt1);
            let (catches1, vt3) = catch_vars_resolved_catches(catches, vt2);
            let (finally1, vt4) = catch_vars_resolved_opt(finally, vt3);
            (
                StmtV::TryWithResources {
                    resources: resources1,
                    body: Box::new(body1),
                    catches: catches1,
                    finally: finally1,
                },
                vt4,
            )
        },
        StmtV::Synchronized { lock, body } => {
            let (body1, vt1) = catch_vars_resolved(*body, vt);
            (StmtV::Synchronized { lock, body: Box::new(body1) }, vt1)
        },
        StmtV::Labeled { label, body } => {
            let (body1, vt1) = catch_vars_resolved(*body, vt);
            (StmtV::Labeled { label, body: Box::new(body1) }, vt1)
        },
        _ => (s, vt),
    }
}

/// [`catch_vars_resolved`] where there is a value.
pub open spec fn catch_vars_resolved_opt(
    o: Option<Box<StmtV>>,
    vt: VarTableV,
) -> (Option<Box<StmtV>>, VarTableV)
    decreases opt_stmt_size(o),
{
    match o {
        Some(x) => {
            let (y, vt1) = catch_vars_resolved(*x, vt);
            (Some(Box::new(y)), vt1)
        },
        None => (None, vt),
    }
}

/// [`catch_vars_resolved`] over a list, in order.
pub open spec fn catch_vars_resolved_seq(v: Seq<StmtV>, vt: VarTableV) -> (Seq<StmtV>, VarTableV)
    decreases stmts_size(v),
{
    if v.len() == 0 {
        (seq![], vt)
    } else {
        let (front, vt1) = catch_vars_resolved_seq(v.drop_last(), vt);
        let (last, vt2) = catch_vars_resolved(v.last(), vt1);
        (front.push(last), vt2)
    }
}

/// [`catch_vars_resolved`] inside a switch arm.
pub open spec fn catch_vars_resolved_case(c: CaseGroupV, vt: VarTableV) -> (CaseGroupV, VarTableV)
    decreases case_size(c),
{
    let (body, vt9) = catch_vars_resolved_seq(c.body, vt);
    (CaseGroupV { body, ..c }, vt9)
}

/// [`catch_vars_resolved`] over a list, in order.
pub open spec fn catch_vars_resolved_cases(
    v: Seq<CaseGroupV>,
    vt: VarTableV,
) -> (Seq<CaseGroupV>, VarTableV)
    decreases cases_size(v),
{
    if v.len() == 0 {
        (seq![], vt)
    } else {
        let (front, vt1) = catch_vars_resolved_cases(v.drop_last(), vt);
        let (last, vt2) = catch_vars_resolved_case(v.last(), vt1);
        (front.push(last), vt2)
    }
}

/// [`catch_vars_resolved`] inside a catch clause.
pub open spec fn catch_vars_resolved_catch(c: CatchV, vt: VarTableV) -> (CatchV, VarTableV)
    decreases catch_size(c)
    via catch_vars_resolved_catch_decreases
{
    if c.var == u32::MAX {
        match head_store(*c.body) {
            Some(v) => {
                let to = next_id(vt);
                let (body, vt1) = catch_vars_resolved(
                    bound_body(*c.body, v, to),
                    with_caught(vt, c, v),
                );
                (CatchV { var: to, body: Box::new(body), ..c }, vt1)
            },
            None => {
                let (body, vt1) = catch_vars_resolved(*c.body, vt);
                (CatchV { body: Box::new(body), ..c }, vt1)
            },
        }
    } else {
        let (body, vt1) = catch_vars_resolved(*c.body, vt);
        (CatchV { body: Box::new(body), ..c }, vt1)
    }
}

/// [`catch_vars_resolved`] over a list, in order.
pub open spec fn catch_vars_resolved_catches(
    v: Seq<CatchV>,
    vt: VarTableV,
) -> (Seq<CatchV>, VarTableV)
    decreases catches_size(v),
{
    if v.len() == 0 {
        (seq![], vt)
    } else {
        let (front, vt1) = catch_vars_resolved_catches(v.drop_last(), vt);
        let (last, vt2) = catch_vars_resolved_catch(v.last(), vt1);
        (front.push(last), vt2)
    }
}

/// Gives each catch clause without a variable one of its own: the handler's first
/// store becomes the binding, and what follows it up to the next assignment refers
/// to the new variable.
pub fn resolve_catch_vars(s: &mut Stmt, vt: &mut VarTable)
    ensures
        final(s)@ == catch_vars_resolved(old(s)@, old(vt)@).0,
        final(vt)@ == catch_vars_resolved(old(s)@, old(vt)@).1,
    decreases stmt_size(old(s)@),
{
    match s {
        Stmt::Block(items) => { resolve_catch_vars_vec(items, vt); },
        Stmt::If { then_stmt, else_stmt, .. } => {
            resolve_catch_vars(then_stmt, vt);
            resolve_catch_vars_opt(else_stmt, vt);
        },
        Stmt::While { body, .. } => { resolve_catch_vars(body, vt); },
        Stmt::DoWhile { body, .. } => { resolve_catch_vars(body, vt); },
        Stmt::For { init, body, .. } => {
            resolve_catch_vars_vec(init, vt);
            resolve_catch_vars(body, vt);
        },
        Stmt::ForEach { body, .. } => { resolve_catch_vars(body, vt); },
        Stmt::Switch { cases, default, .. } => {
            resolve_catch_vars_cases(cases, vt);
            resolve_catch_vars_opt(default, vt);
        },
        Stmt::Try { body, catches, finally } => {
            resolve_catch_vars(body, vt);
            resolve_catch_vars_catches(catches, vt);
            resolve_catch_vars_opt(finally, vt);
        },
        Stmt::TryWithResources { resources, body, catches, finally } => {
            resolve_catch_vars_vec(resources, vt);
            resolve_catch_vars(body, vt);
            resolve_catch_vars_catches(catches, vt);
            resolve_catch_vars_opt(finally, vt);
        },
        Stmt::Synchronized { body, .. } => { resolve_catch_vars(body, vt); },
        Stmt::Labeled { body, .. } => { resolve_catch_vars(body, vt); },
        _ => {},
    }
}

/// `resolve_catch_vars` where there is a value.
pub fn resolve_catch_vars_opt(o: &mut Option<Box<Stmt>>, vt: &mut VarTable)
    ensures
        opt_stmt(*final(o)) == catch_vars_resolved_opt(opt_stmt(*old(o)), old(vt)@).0,
        final(vt)@ == catch_vars_resolved_opt(opt_stmt(*old(o)), old(vt)@).1,
    decreases opt_stmt_size(opt_stmt(*old(o))),
{
    if let Some(x) = o {
        resolve_catch_vars(x, vt);
    }
}

/// `resolve_catch_vars` over a list, in order.
#[verifier::loop_isolation(false)]
pub fn resolve_catch_vars_vec(v: &mut Vec<Stmt>, vt: &mut VarTable)
    ensures
        stmts(final(v)@) == catch_vars_resolved_seq(stmts(old(v)@), old(vt)@).0,
        final(vt)@ == catch_vars_resolved_seq(stmts(old(v)@), old(vt)@).1,
    decreases stmts_size(stmts(old(v)@)),
{
    let mut i: usize = 0;
    assert(stmts(v@.take(0)) =~= seq![]);
    while i < v.len()
        invariant
            i <= v.len(),
            v.len() == old(v).len(),
            stmts(v@.take(i as int)) == catch_vars_resolved_seq(
                stmts(old(v)@).take(i as int),
                old(vt)@,
            ).0,
            vt@ == catch_vars_resolved_seq(stmts(old(v)@).take(i as int), old(vt)@).1,
            forall|j: int| i <= j < v.len() ==> #[trigger] v@[j] == old(v)@[j],
        decreases v.len() - i,
    {
        let ghost before = stmts(v@.take(i as int));
        let ghost done = stmts(old(v)@).take(i + 1);
        assert(done.drop_last() =~= stmts(old(v)@).take(i as int));
        assert(done.last() == v@[i as int]@);
        proof {
            lemma_stmts_size(stmts(old(v)@), i as int);
        }
        resolve_catch_vars(&mut v[i], vt);
        i += 1;
        assert(stmts(v@.take(i as int)) =~= before.push(v@[i - 1]@));
    }
    assert(v@.take(i as int) =~= v@);
    assert(stmts(old(v)@).take(i as int) =~= stmts(old(v)@));
}

/// `resolve_catch_vars` inside a switch arm.
pub fn resolve_catch_vars_case(c: &mut CaseGroup, vt: &mut VarTable)
    ensures
        final(c)@ == catch_vars_resolved_case(old(c)@, old(vt)@).0,
        final(vt)@ == catch_vars_resolved_case(old(c)@, old(vt)@).1,
    decreases case_size(old(c)@),
{
    resolve_catch_vars_vec(&mut c.body, vt);
}

/// `resolve_catch_vars` over a list, in order.
#[verifier::loop_isolation(false)]
pub fn resolve_catch_vars_cases(v: &mut Vec<CaseGroup>, vt: &mut VarTable)
    ensures
        case_groups(final(v)@) == catch_vars_resolved_cases(case_groups(old(v)@), old(vt)@).0,
        final(vt)@ == catch_vars_resolved_cases(case_groups(old(v)@), old(vt)@).1,
    decreases cases_size(case_groups(old(v)@)),
{
    let mut i: usize = 0;
    assert(case_groups(v@.take(0)) =~= seq![]);
    while i < v.len()
        invariant
            i <= v.len(),
            v.len() == old(v).len(),
            case_groups(v@.take(i as int)) == catch_vars_resolved_cases(
                case_groups(old(v)@).take(i as int),
                old(vt)@,
            ).0,
            vt@ == catch_vars_resolved_cases(case_groups(old(v)@).take(i as int), old(vt)@).1,
            forall|j: int| i <= j < v.len() ==> #[trigger] v@[j] == old(v)@[j],
        decreases v.len() - i,
    {
        let ghost before = case_groups(v@.take(i as int));
        let ghost done = case_groups(old(v)@).take(i + 1);
        assert(done.drop_last() =~= case_groups(old(v)@).take(i as int));
        assert(done.last() == v@[i as int]@);
        proof {
            lemma_cases_size(case_groups(old(v)@), i as int);
        }
        resolve_catch_vars_case(&mut v[i], vt);
        i += 1;
        assert(case_groups(v@.take(i as int)) =~= before.push(v@[i - 1]@));
    }
    assert(v@.take(i as int) =~= v@);
    assert(case_groups(old(v)@).take(i as int) =~= case_groups(old(v)@));
}

/// `resolve_catch_vars` inside a catch clause.
pub fn resolve_catch_vars_catch(c: &mut Catch, vt: &mut VarTable)
    ensures
        final(c)@ == catch_vars_resolved_catch(old(c)@, old(vt)@).0,
        final(vt)@ == catch_vars_resolved_catch(old(c)@, old(vt)@).1,
    decreases catch_size(old(c)@),
{
    if c.var == u32::MAX {
        if let Some(v) = stored_at_head(&c.body) {
            let ty = if c.exc.len() > 0 {
                assert(strs(c.exc@)[0] == c.exc@[0]@);
                TypeRef::J(JType::Object(c.exc[0].clone()))
            } else {
                throwable_type()
            };
            let name = if vt.is_synthetic(v) {
                "e".to_owned()
            } else {
                vt.vars[v as usize].name.clone()
            };
            let slot = vt.var_slot(v);
            let to = vt.add_catch_var(slot, name, ty);
            proof {
                lemma_bound_size(c.body@, v, to);
            }
            remove_first_stmt(&mut c.body);
            rewrite_var_until_assign(&mut c.body, v, to);
            c.var = to;
        }
    }
    resolve_catch_vars(&mut c.body, vt);
}

/// `resolve_catch_vars` over a list, in order.
#[verifier::loop_isolation(false)]
pub fn resolve_catch_vars_catches(v: &mut Vec<Catch>, vt: &mut VarTable)
    ensures
        catch_list(final(v)@) == catch_vars_resolved_catches(catch_list(old(v)@), old(vt)@).0,
        final(vt)@ == catch_vars_resolved_catches(catch_list(old(v)@), old(vt)@).1,
    decreases catches_size(catch_list(old(v)@)),
{
    let mut i: usize = 0;
    assert(catch_list(v@.take(0)) =~= seq![]);
    while i < v.len()
        invariant
            i <= v.len(),
            v.len() == old(v).len(),
            catch_list(v@.take(i as int)) == catch_vars_resolved_catches(
                catch_list(old(v)@).take(i as int),
                old(vt)@,
            ).0,
            vt@ == catch_vars_resolved_catches(catch_list(old(v)@).take(i as int), old(vt)@).1,
            forall|j: int| i <= j < v.len() ==> #[trigger] v@[j] == old(v)@[j],
        decreases v.len() - i,
    {
        let ghost before = catch_list(v@.take(i as int));
        let ghost done = catch_list(old(v)@).take(i + 1);
        assert(done.drop_last() =~= catch_list(old(v)@).take(i as int));
        assert(done.last() == v@[i as int]@);
        proof {
            lemma_catches_size(catch_list(old(v)@), i as int);
        }
        resolve_catch_vars_catch(&mut v[i], vt);
        i += 1;
        assert(catch_list(v@.take(i as int)) =~= before.push(v@[i - 1]@));
    }
    assert(v@.take(i as int) =~= v@);
    assert(catch_list(old(v)@).take(i as int) =~= catch_list(old(v)@));
}

/// A bound handler body is not much larger than the body it came from.
pub proof fn lemma_bound_size(body: StmtV, v: u32, to: u32)
    ensures
        stmt_size(bound_body(body, v, to)) <= stmt_size(body) + 1,
{
    lemma_first_removed_size(body);
    lemma_renamed_until_size(first_removed(body), v, to);
}

#[via_fn]
proof fn catch_vars_resolved_catch_decreases(c: CatchV, vt: VarTableV) {
    if let Some(v) = head_store(*c.body) {
        lemma_bound_size(*c.body, v, next_id(vt));
    }
}

/// The variable that a handler's first statement stores to.
fn stored_at_head(body: &Stmt) -> (r: Option<u32>)
    ensures
        r == head_store(body@),
{
    match first_stmt(body) {
        Some(x) => match x {
            Stmt::LocalDef { var, .. } => Some(*var),
            _ => assigned(x),
        },
        None => None,
    }
}

/// The bound catch variables of `s`, handlers before their `try` body.
pub open spec fn catch_vars(s: StmtV) -> Seq<u32>
    decreases s,
{
    match s {
        StmtV::Block(items) => catch_vars_seq(items),
        StmtV::If { then_stmt, else_stmt, .. } => catch_vars(*then_stmt)
            + catch_vars_opt(else_stmt),
        StmtV::While { body, .. } => catch_vars(*body),
        StmtV::DoWhile { body, .. } => catch_vars(*body),
        StmtV::For { init, body, .. } => catch_vars_seq(init) + catch_vars(*body),
        StmtV::ForEach { body, .. } => catch_vars(*body),
        StmtV::Switch { cases, default, .. } => catch_vars_cases(cases) + catch_vars_opt(default),
        StmtV::Try { body, catches, finally } => catch_vars_catches(catches) + catch_vars(*body)
            + catch_vars_opt(finally),
        StmtV::TryWithResources { resources, body, catches, finally } => catch_vars_seq(resources)
            + catch_vars_catches(catches) + catch_vars(*body) + catch_vars_opt(finally),
        StmtV::Synchronized { body, .. } => catch_vars(*body),
        StmtV::Labeled { body, .. } => catch_vars(*body),
        _ => seq![],
    }
}

/// [`catch_vars`] where there is a value.
pub open spec fn catch_vars_opt(o: Option<Box<StmtV>>) -> Seq<u32>
    decreases o,
{
    match o {
        Some(x) => catch_vars(*x),
        None => seq![],
    }
}

/// [`catch_vars`] over a list.
pub open spec fn catch_vars_seq(l: Seq<StmtV>) -> Seq<u32>
    decreases l,
{
    if l.len() == 0 {
        seq![]
    } else {
        catch_vars_seq(l.drop_last()) + catch_vars(l.last())
    }
}

/// [`catch_vars`] inside a switch arm.
pub open spec fn catch_vars_case(c: CaseGroupV) -> Seq<u32>
    decreases c,
{
    catch_vars_seq(c.body)
}

/// [`catch_vars`] over a list.
pub open spec fn catch_vars_cases(l: Seq<CaseGroupV>) -> Seq<u32>
    decreases l,
{
    if l.len() == 0 {
        seq![]
    } else {
        catch_vars_cases(l.drop_last()) + catch_vars_case(l.last())
    }
}

/// [`catch_vars`] inside a catch clause.
pub open spec fn catch_vars_catch(c: CatchV) -> Seq<u32>
    decreases c,
{
    (if c.var != u32::MAX { seq![c.var] } else { seq![] }) + catch_vars(*c.body)
}

/// [`catch_vars`] over a list.
pub open spec fn catch_vars_catches(l: Seq<CatchV>) -> Seq<u32>
    decreases l,
{
    if l.len() == 0 {
        seq![]
    } else {
        catch_vars_catches(l.drop_last()) + catch_vars_catch(l.last())
    }
}

/// Adds the bound catch variables of `s` to `out`, handlers before their `try` body.
pub fn collect_catch_vars(s: &Stmt, out: &mut Vec<u32>)
    ensures
        final(out)@ == old(out)@ + catch_vars(s@),
    decreases s,
{
    match s {
        Stmt::Block(items) => { collect_catch_vars_vec(items, out); },
        Stmt::If { then_stmt, else_stmt, .. } => {
            collect_catch_vars(then_stmt, out);
            collect_catch_vars_opt(else_stmt, out);
            assert(out@ =~= old(out)@ + catch_vars(s@));
        },
        Stmt::While { body, .. } => { collect_catch_vars(body, out); },
        Stmt::DoWhile { body, .. } => { collect_catch_vars(body, out); },
        Stmt::For { init, body, .. } => {
            collect_catch_vars_vec(init, out);
            collect_catch_vars(body, out);
            assert(out@ =~= old(out)@ + catch_vars(s@));
        },
        Stmt::ForEach { body, .. } => { collect_catch_vars(body, out); },
        Stmt::Switch { cases, default, .. } => {
            collect_catch_vars_cases(cases, out);
            collect_catch_vars_opt(default, out);
            assert(out@ =~= old(out)@ + catch_vars(s@));
        },
        Stmt::Try { body, catches, finally } => {
            collect_catch_vars_catches(catches, out);
            collect_catch_vars(body, out);
            collect_catch_vars_opt(finally, out);
            assert(out@ =~= old(out)@ + catch_vars(s@));
        },
        Stmt::TryWithResources { resources, body, catches, finally } => {
            collect_catch_vars_vec(resources, out);
            collect_catch_vars_catches(catches, out);
            collect_catch_vars(body, out);
            collect_catch_vars_opt(finally, out);
            assert(out@ =~= old(out)@ + catch_vars(s@));
        },
        Stmt::Synchronized { body, .. } => { collect_catch_vars(body, out); },
        Stmt::Labeled { body, .. } => { collect_catch_vars(body, out); },
        _ => {},
    }
}

/// `collect_catch_vars` where there is a value.
pub fn collect_catch_vars_opt(o: &Option<Box<Stmt>>, out: &mut Vec<u32>)
    ensures
        final(out)@ == old(out)@ + catch_vars_opt(opt_stmt(*o)),
    decreases o,
{
    if let Some(x) = o {
        collect_catch_vars(x, out);
    }
}

/// `collect_catch_vars` over a list.
#[verifier::loop_isolation(false)]
pub fn collect_catch_vars_vec(l: &Vec<Stmt>, out: &mut Vec<u32>)
    ensures
        final(out)@ == old(out)@ + catch_vars_seq(stmts(l@)),
    decreases l,
{
    let ghost all = stmts(l@);
    let mut i: usize = 0;
    while i < l.len()
        invariant
            i <= l.len(),
            out@ == old(out)@ + catch_vars_seq(all.take(i as int)),
        decreases l.len() - i,
    {
        assert(decreases_to!(l => l@[i as int]));
        assert(all.take(i + 1).drop_last() =~= all.take(i as int));
        collect_catch_vars(&l[i], out);
        i += 1;
        assert(out@ =~= old(out)@ + catch_vars_seq(all.take(i as int)));
    }
    assert(all.take(i as int) =~= all);
}

/// `collect_catch_vars` inside a switch arm.
pub fn collect_catch_vars_case(c: &CaseGroup, out: &mut Vec<u32>)
    ensures
        final(out)@ == old(out)@ + catch_vars_case(c@),
    decreases c,
{
    collect_catch_vars_vec(&c.body, out);
}

/// `collect_catch_vars` over a list.
#[verifier::loop_isolation(false)]
pub fn collect_catch_vars_cases(l: &Vec<CaseGroup>, out: &mut Vec<u32>)
    ensures
        final(out)@ == old(out)@ + catch_vars_cases(case_groups(l@)),
    decreases l,
{
    let ghost all = case_groups(l@);
    let mut i: usize = 0;
    while i < l.len()
        invariant
            i <= l.len(),
            out@ == old(out)@ + catch_vars_cases(all.take(i as int)),
        decreases l.len() - i,
    {
        assert(decreases_to!(l => l@[i as int]));
        assert(all.take(i + 1).drop_last() =~= all.take(i as int));
        collect_catch_vars_case(&l[i], out);
        i += 1;
        assert(out@ =~= old(out)@ + catch_vars_cases(all.take(i as int)));
    }
    assert(all.take(i as int) =~= all);
}

/// `collect_catch_vars` inside a catch clause.
pub fn collect_catch_vars_catch(c: &Catch, out: &mut Vec<u32>)
    ensures
        final(out)@ == old(out)@ + catch_vars_catch(c@),
    decreases c,
{
    if c.var != u32::MAX {
        out.push(c.var);
    }
    collect_catch_vars(&c.body, out);
    assert(out@ =~= old(out)@ + catch_vars_catch(c@));
}

/// `collect_catch_vars` over a list.
#[verifier::loop_isolation(false)]
pub fn collect_catch_vars_catches(l: &Vec<Catch>, out: &mut Vec<u32>)
    ensures
        final(out)@ == old(out)@ + catch_vars_catches(catch_list(l@)),
    decreases l,
{
    let ghost all = catch_list(l@);
    let mut i: usize = 0;
    while i < l.len()
        invariant
            i <= l.len(),
            out@ == old(out)@ + catch_vars_catches(all.take(i as int)),
        decreases l.len() - i,
    {
        assert(decreases_to!(l => l@[i as int]));
        assert(all.take(i + 1).drop_last() =~= all.take(i as int));
        collect_catch_vars_catch(&l[i], out);
        i += 1;
        assert(out@ =~= old(out)@ + catch_vars_catches(all.take(i as int)));
    }
    assert(all.take(i as int) =~= all);
}

/// The table with the caught type given to the variable of `c`, where it had none
/// better than `Object` or `int`.
pub open spec fn caught_typed(c: CatchV, vt: VarTableV) -> VarTableV {
    if c.var != u32::MAX && has_var(vt, c.var) && (erase(vt.vars[c.var as int].ty) == object_type()
        || erase(vt.vars[c.var as int].ty) is Int) {
        with_type(vt, c.var, caught_type(c))
    } else {
        vt
    }
}

/// The table with each catch variable of `s` typed by its clause where nothing
/// better is known.
pub open spec fn catch_types(s: StmtV, vt: VarTableV) -> VarTableV
    decreases s,
{
    match s {
        StmtV::Block(items) => { catch_types_seq(items, vt) },
        StmtV::If { then_stmt, else_stmt, .. } => {
            let vt1 = catch_types(*then_stmt, vt);
            catch_types_opt(else_stmt, vt1)
        },
        StmtV::While { body, .. } => { catch_types(*body, vt) },
        StmtV::DoWhile { body, .. } => { catch_types(*body, vt) },
        StmtV::For { init, body, .. } => {
            let vt1 = catch_types_seq(init, vt);
            catch_types(*body, vt1)
        },
        StmtV::ForEach { body, .. } => { catch_types(*body, vt) },
        StmtV::Switch { cases, default, .. } => {
            let vt1 = catch_types_cases(cases, vt);
            catch_types_opt(default, vt1)
        },
        StmtV::Try { body, catches, finally } => {
            let vt1 = catch_types_catches(catches, vt);
            let vt2 = catch_types(*body, vt1);
            catch_types_opt(finally, vt2)
        },
        StmtV::TryWithResources { resources, body, catches, finally } => {
            let vt1 = catch_types_seq(resources, vt);
            let vt2 = catch_types_catches(catches, vt1);
            let vt3 = catch_types(*body, vt2);
            catch_types_opt(finally, vt3)
        },
        StmtV::Synchronized { body, .. } => { catch_types(*body, vt) },
        StmtV::Labeled { body, .. } => { catch_types(*body, vt) },
        _ => vt,
    }
}

/// [`catch_types`] where there is a value.
pub open spec fn catch_types_opt(o: Option<Box<StmtV>>, vt: VarTableV) -> VarTableV
    decreases o,
{
    match o {
        Some(x) => catch_types(*x, vt),
        None => vt,
    }
}

/// [`catch_types`] over a list, in order.
pub open spec fn catch_types_seq(l: Seq<StmtV>, vt: VarTableV) -> VarTableV
    decreases l,
{
    if l.len() == 0 {
        vt
    } else {
        let vt1 = catch_types_seq(l.drop_last(), vt);
        catch_types(l.last(), vt1)
    }
}

/// [`catch_types`] inside a switch arm.
pub open spec fn catch_types_case(c: CaseGroupV, vt: VarTableV) -> VarTableV
    decreases c,
{
    catch_types_seq(c.body, vt)
}

/// [`catch_types`] over a list, in order.
pub open spec fn catch_types_cases(l: Seq<CaseGroupV>, vt: VarTableV) -> VarTableV
    decreases l,
{
    if l.len() == 0 {
        vt
    } else {
        let vt1 = catch_types_cases(l.drop_last(), vt);
        catch_types_case(l.last(), vt1)
    }
}

/// [`catch_types`] inside a catch clause.
pub open spec fn catch_types_catch(c: CatchV, vt: VarTableV) -> VarTableV
    decreases c,
{
    catch_types(*c.body, caught_typed(c, vt))
}

/// [`catch_types`] over a list, in order.
pub open spec fn catch_types_catches(l: Seq<CatchV>, vt: VarTableV) -> VarTableV
    decreases l,
{
    if l.len() == 0 {
        vt
    } else {
        let vt1 = catch_types_catches(l.drop_last(), vt);
        catch_types_catch(l.last(), vt1)
    }
}

/// Gives catch variables without a known type that of their clause.
pub fn type_catch_vars(s: &Stmt, vt: &mut VarTable)
    ensures
        final(vt)@ == catch_types(s@, old(vt)@),
    decreases s,
{
    match s {
        Stmt::Block(items) => { type_catch_vars_vec(items, vt); },
        Stmt::If { then_stmt, else_stmt, .. } => {
            type_catch_vars(then_stmt, vt);
            type_catch_vars_opt(else_stmt, vt);
        },
        Stmt::While { body, .. } => { type_catch_vars(body, vt); },
        Stmt::DoWhile { body, .. } => { type_catch_vars(body, vt); },
        Stmt::For { init, body, .. } => {
            type_catch_vars_vec(init, vt);
            type_catch_vars(body, vt);
        },
        Stmt::ForEach { body, .. } => { type_catch_vars(body, vt); },
        Stmt::Switch { cases, default, .. } => {
            type_catch_vars_cases(cases, vt);
            type_catch_vars_opt(default, vt);
        },
        Stmt::Try { body, catches, finally } => {
            type_catch_vars_catches(catches, vt);
            type_catch_vars(body, vt);
            type_catch_vars_opt(finally, vt);
        },
        Stmt::TryWithResources { resources, body, catches, finally } => {
            type_catch_vars_vec(resources, vt);
            type_catch_vars_catches(catches, vt);
            type_catch_vars(body, vt);
            type_catch_vars_opt(finally, vt);
        },
        Stmt::Synchronized { body, .. } => { type_catch_vars(body, vt); },
        Stmt::Labeled { body, .. } => { type_catch_vars(body, vt); },
        _ => {},
    }
}

/// `type_catch_vars` where there is a value.
pub fn type_catch_vars_opt(o: &Option<Box<Stmt>>, vt: &mut VarTable)
    ensures
        final(vt)@ == catch_types_opt(opt_stmt(*o), old(vt)@),
    decreases o,
{
    if let Some(x) = o {
        type_catch_vars(x, vt);
    }
}

/// `type_catch_vars` over a list, in order.
#[verifier::loop_isolation(false)]
pub fn type_catch_vars_vec(l: &Vec<Stmt>, vt: &mut VarTable)
    ensures
        final(vt)@ == catch_types_seq(stmts(l@), old(vt)@),
    decreases l,
{
    let ghost all = stmts(l@);
    let mut i: usize = 0;
    while i < l.len()
        invariant
            i <= l.len(),
            vt@ == catch_types_seq(all.take(i as int), old(vt)@),
        decreases l.len() - i,
    {
        assert(decreases_to!(l => l@[i as int]));
        assert(all.take(i + 1).drop_last() =~= all.take(i as int));
        type_catch_vars(&l[i], vt);
        i += 1;
    }
    assert(all.take(i as int) =~= all);
}

/// `type_catch_vars` inside a switch arm.
pub fn type_catch_vars_case(c: &CaseGroup, vt: &mut VarTable)
    ensures
        final(vt)@ == catch_types_case(c@, old(vt)@),
    decreases c,
{
    type_catch_vars_vec(&c.body, vt);
}

/// `type_catch_vars` over a list, in order.
#[verifier::loop_isolation(false)]
pub fn type_catch_vars_cases(l: &Vec<CaseGroup>, vt: &mut VarTable)
    ensures
        final(vt)@ == catch_types_cases(case_groups(l@), old(vt)@),
    decreases l,
{
    let ghost all = case_groups(l@);
    let mut i: usize = 0;
    while i < l.len()
        invariant
            i <= l.len(),
            vt@ == catch_types_cases(all.take(i as int), old(vt)@),
        decreases l.len() - i,
    {
        assert(decreases_to!(l => l@[i as int]));
        assert(all.take(i + 1).drop_last() =~= all.take(i as int));
        type_catch_vars_case(&l[i], vt);
        i += 1;
    }
    assert(all.take(i as int) =~= all);
}

/// `type_catch_vars` inside a catch clause.
pub fn type_catch_vars_catch(c: &Catch, vt: &mut VarTable)
    ensures
        final(vt)@ == catch_types_catch(c@, old(vt)@),
    decreases c,
{
    if c.var != u32::MAX && (c.var as usize) < vt.vars.len() {
        let placeholder = match vt.vars[c.var as usize].ty.erased() {
            JType::Object(n) => str_eq(n.as_str(), "java/lang/Object"),
            JType::Int => true,
            _ => false,
        };
        if placeholder {
            let ty = if c.exc.len() > 0 {
                assert(strs(c.exc@)[0] == c.exc@[0]@);
                TypeRef::J(JType::Object(c.exc[0].clone()))
            } else {
                throwable_type()
            };
            vt.set_type(c.var, ty);
        }
    }
    type_catch_vars(&c.body, vt);
}

/// `type_catch_vars` over a list, in order.
#[verifier::loop_isolation(false)]
pub fn type_catch_vars_catches(l: &Vec<Catch>, vt: &mut VarTable)
    ensures
        final(vt)@ == catch_types_catches(catch_list(l@), old(vt)@),
    decreases l,
{
    let ghost all = catch_list(l@);
    let mut i: usize = 0;
    while i < l.len()
        invariant
            i <= l.len(),
            vt@ == catch_types_catches(all.take(i as int), old(vt)@),
        decreases l.len() - i,
    {
        assert(decreases_to!(l => l@[i as int]));
        assert(all.take(i + 1).drop_last() =~= all.take(i as int));
        type_catch_vars_catch(&l[i], vt);
        i += 1;
    }
    assert(all.take(i as int) =~= all);
}

/// `s` where every catch-all clause with an empty body rethrows what it caught.
pub open spec fn catchall_fixed(s: StmtV) -> StmtV
    decreases s,
{
    match s {
        StmtV::Block(items) => StmtV::Block(catchall_fixed_seq(items)),
        StmtV::If { cond, then_stmt, else_stmt } => StmtV::If {
            cond,
            then_stmt: Box::new(catchall_fixed(*then_stmt)),
            else_stmt: catchall_fixed_opt(else_stmt),
        },
        StmtV::While { cond, body } => StmtV::While { cond, body: Box::new(catchall_fixed(*body)) },
        StmtV::DoWhile { body, cond } => StmtV::DoWhile {
            body: Box::new(catchall_fixed(*body)),
            cond,
        },
        StmtV::For { init, cond, update, body } => StmtV::For {
            init: catchall_fixed_seq(init),
            cond,
            update,
            body: Box::new(catchall_fixed(*body)),
        },
        StmtV::ForEach { var, iterable, is_array, body } => StmtV::ForEach {
            var,
            iterable,
            is_array,
            body: Box::new(catchall_fixed(*body)),
        },
        StmtV::Switch { selector, cases, default, on_string } => StmtV::Switch {
            selector,
            cases: catchall_fixed_cases(cases),
            default: catchall_fixed_opt(default),
            on_string,
        },
        StmtV::Try { body, catches, finally } => StmtV::Try {
            body: Box::new(catchall_fixed(*body)),
            catches: catchall_fixed_catches(catches),
            finally: catchall_fixed_opt(finally),
        },
        StmtV::TryWithResources { resources, body, catches, finally } => StmtV::TryWithResources {
            resources: catchall_fixed_seq(resources),
            body: Box::new(catchall_fixed(*body)),
            catches: catchall_fixed_catches(catches),
            finally: catchall_fixed_opt(finally),
        },
        StmtV::Synchronized { lock, body } => StmtV::Synchronized {
            lock,
            body: Box::new(catchall_fixed(*body)),
        },
        StmtV::Labeled { label, body } => StmtV::Labeled {
            label,
            body: Box::new(catchall_fixed(*body)),
        },
        _ => s,
    }
}

/// [`catchall_fixed`] where there is a value.
pub open spec fn catchall_fixed_opt(o: Option<Box<StmtV>>) -> Option<Box<StmtV>>
    decreases o,
{
    match o {
        Some(x) => Some(Box::new(catchall_fixed(*x))),
        None => None,
    }
}

/// [`catchall_fixed`] over a list.
pub open spec fn catchall_fixed_seq(v: Seq<StmtV>) -> Seq<StmtV>
    decreases v,
{
    Seq::new(v.len(), |i: int| if 0 <= i < v.len() { catchall_fixed(v[i]) } else { arbitrary() })
}

/// [`catchall_fixed`] inside a switch arm.
pub open spec fn catchall_fixed_case(c: CaseGroupV) -> CaseGroupV
    decreases c,
{
    CaseGroupV { body: catchall_fixed_seq(c.body), ..c }
}

/// [`catchall_fixed`] over a list.
pub open spec fn catchall_fixed_cases(v: Seq<CaseGroupV>) -> Seq<CaseGroupV>
    decreases v,
{
    Seq::new(
        v.len(),
        |i: int| if 0 <= i < v.len() { catchall_fixed_case(v[i]) } else { arbitrary() },
    )
}

/// [`catchall_fixed`] inside a catch clause.
pub open spec fn catchall_fixed_catch(c: CatchV) -> CatchV
    decreases c,
{
    CatchV {
        body: if c.exc.len() == 0 && is_empty_block(catchall_fixed(*c.body)) && c.var != u32::MAX {
            Box::new(StmtV::Throw(ExprV::Local { var: c.var, ty: throwable() }))
        } else {
            Box::new(catchall_fixed(*c.body))
        },
        ..c
    }
}

/// [`catchall_fixed`] over a list.
pub open spec fn catchall_fixed_catches(v: Seq<CatchV>) -> Seq<CatchV>
    decreases v,
{
    Seq::new(
        v.len(),
        |i: int| if 0 <= i < v.len() { catchall_fixed_catch(v[i]) } else { arbitrary() },
    )
}

/// Makes every catch-all clause with an empty body rethrow what it caught.
pub fn fix_empty_catchall(s: &mut Stmt)
    ensures
        final(s)@ == catchall_fixed(old(s)@),
    decreases *old(s),
{
    match s {
        Stmt::Block(items) => { fix_empty_catchall_vec(items); },
        Stmt::If { then_stmt, else_stmt, .. } => {
            fix_empty_catchall(then_stmt);
            fix_empty_catchall_opt(else_stmt);
        },
        Stmt::While { body, .. } => { fix_empty_catchall(body); },
        Stmt::DoWhile { body, .. } => { fix_empty_catchall(body); },
        Stmt::For { init, body, .. } => { fix_empty_catchall_vec(init); fix_empty_catchall(body); },
        Stmt::ForEach { body, .. } => { fix_empty_catchall(body); },
        Stmt::Switch { cases, default, .. } => {
            fix_empty_catchall_cases(cases);
            fix_empty_catchall_opt(default);
        },
        Stmt::Try { body, catches, finally } => {
            fix_empty_catchall(body);
            fix_empty_catchall_catches(catches);
            fix_empty_catchall_opt(finally);
        },
        Stmt::TryWithResources { resources, body, catches, finally } => {
            fix_empty_catchall_vec(resources);
            fix_empty_catchall(body);
            fix_empty_catchall_catches(catches);
            fix_empty_catchall_opt(finally);
        },
        Stmt::Synchronized { body, .. } => { fix_empty_catchall(body); },
        Stmt::Labeled { body, .. } => { fix_empty_catchall(body); },
        _ => {},
    }
}

/// `fix_empty_catchall` where there is a value.
pub fn fix_empty_catchall_opt(o: &mut Option<Box<Stmt>>)
    ensures
        opt_stmt(*final(o)) == catchall_fixed_opt(opt_stmt(*old(o))),
    decreases *old(o),
{
    if let Some(x) = o {
        fix_empty_catchall(x);
    }
}

/// `fix_empty_catchall` over a list.
#[verifier::loop_isolation(false)]
pub fn fix_empty_catchall_vec(v: &mut Vec<Stmt>)
    ensures
        stmts(final(v)@) == catchall_fixed_seq(stmts(old(v)@)),
    decreases *old(v),
{
    let mut i: usize = 0;
    while i < v.len()
        invariant
            i <= v.len(),
            v.len() == old(v).len(),
            forall|j: int| 0 <= j < i ==> (#[trigger] v@[j])@ == catchall_fixed(old(v)@[j]@),
            forall|j: int| i <= j < v.len() ==> #[trigger] v@[j] == old(v)@[j],
        decreases v.len() - i,
    {
        assert(decreases_to!(*old(v) => v@[i as int]));
        fix_empty_catchall(&mut v[i]);
        i += 1;
    }
    assert(stmts(v@) =~= catchall_fixed_seq(stmts(old(v)@)));
}

/// `fix_empty_catchall` inside a switch arm.
pub fn fix_empty_catchall_case(c: &mut CaseGroup)
    ensures
        final(c)@ == catchall_fixed_case(old(c)@),
    decreases *old(c),
{
    fix_empty_catchall_vec(&mut c.body);
}

/// `fix_empty_catchall` over a list.
#[verifier::loop_isolation(false)]
pub fn fix_empty_catchall_cases(v: &mut Vec<CaseGroup>)
    ensures
        case_groups(final(v)@) == catchall_fixed_cases(case_groups(old(v)@)),
    decreases *old(v),
{
    let mut i: usize = 0;
    while i < v.len()
        invariant
            i <= v.len(),
            v.len() == old(v).len(),
            forall|j: int| 0 <= j < i ==> (#[trigger] v@[j])@ == catchall_fixed_case(old(v)@[j]@),
            forall|j: int| i <= j < v.len() ==> #[trigger] v@[j] == old(v)@[j],
        decreases v.len() - i,
    {
        assert(decreases_to!(*old(v) => v@[i as int]));
        fix_empty_catchall_case(&mut v[i]);
        i += 1;
    }
    assert(case_groups(v@) =~= catchall_fixed_cases(case_groups(old(v)@)));
}

/// `fix_empty_catchall` inside a catch clause.
pub fn fix_empty_catchall_catch(c: &mut Catch)
    ensures
        final(c)@ == catchall_fixed_catch(old(c)@),
    decreases *old(c),
{
    fix_empty_catchall(&mut c.body);
    if c.exc.len() == 0 && c.body.is_empty_block() && c.var != u32::MAX {
        c.body = Box::new(Stmt::Throw(Expr::Local { var: c.var, ty: throwable_type() }));
    }
}

/// `fix_empty_catchall` over a list.
#[verifier::loop_isolation(false)]
pub fn fix_empty_catchall_catches(v: &mut Vec<Catch>)
    ensures
        catch_list(final(v)@) == catchall_fixed_catches(catch_list(old(v)@)),
    decreases *old(v),
{
    let mut i: usize = 0;
    while i < v.len()
        invariant
            i <= v.len(),
            v.len() == old(v).len(),
            forall|j: int| 0 <= j < i ==> (#[trigger] v@[j])@ == catchall_fixed_catch(old(v)@[j]@),
            forall|j: int| i <= j < v.len() ==> #[trigger] v@[j] == old(v)@[j],
        decreases v.len() - i,
    {
        assert(decreases_to!(*old(v) => v@[i as int]));
        fix_empty_catchall_catch(&mut v[i]);
        i += 1;
    }
    assert(catch_list(v@) =~= catchall_fixed_catches(catch_list(old(v)@)));
}

// ---------------------------------------------------------------------
// Printed names.

/// Names given so far: of each variable, and those that are taken.
pub struct CatchNames {
    pub names: Vec<String>,
    pub used: Vec<String>,
}

/// Model of [`CatchNames`].
pub ghost struct CatchNamesV {
    pub names: Seq<Seq<char>>,
    pub used: Seq<Seq<char>>,
}

impl CatchNames {
    pub open spec fn view(&self) -> CatchNamesV {
        CatchNamesV { names: strs(self.names@), used: strs(self.used@) }
    }
}

/// The candidate name `e1`, `e2`, ...
pub open spec fn e_name(k: nat) -> Seq<char> {
    numbered(seq!['e'], k)
}

/// `name` is neither taken nor open.
pub open spec fn is_free(name: Seq<char>, used: Seq<Seq<char>>, open: Seq<Seq<char>>) -> bool {
    !used.contains(name) && !open.contains(name)
}

/// `k` is the least number from one on whose name is free.
pub open spec fn is_least_free(k: nat, used: Seq<Seq<char>>, open: Seq<Seq<char>>) -> bool {
    &&& k >= 1
    &&& is_free(e_name(k), used, open)
    &&& forall|j: nat| 1 <= j < k ==> !is_free(#[trigger] e_name(j), used, open)
}

/// The first free candidate name.
pub open spec fn fresh_name(used: Seq<Seq<char>>, open: Seq<Seq<char>>) -> Seq<char> {
    e_name(choose|k: nat| is_least_free(k, used, open))
}

/// Two variables have this name.
pub open spec fn is_shared(all: Seq<Seq<char>>, name: Seq<char>) -> bool {
    exists|i: int, j: int| 0 <= i < j < all.len() && #[trigger] all[i] == name && #[trigger] all[j]
        == name
}

/// The name that a clause starts from.
pub open spec fn base_name(c: CatchV, st: CatchNamesV) -> Seq<char> {
    if c.var != u32::MAX && c.var < st.names.len() {
        st.names[c.var as int]
    } else {
        "ignored"@
    }
}

/// The name that a clause gets: its base name, or a fresh one where that is open
/// further out, shared by two variables or missing.
pub open spec fn catch_name(
    c: CatchV,
    all: Seq<Seq<char>>,
    open: Seq<Seq<char>>,
    st: CatchNamesV,
) -> Seq<char> {
    let base = base_name(c, st);
    if open.contains(base) || base == "ignored"@ || is_shared(all, base) {
        fresh_name(st.used, open)
    } else {
        base
    }
}

/// The names after clause `c` got `name`.
pub open spec fn with_catch_name(c: CatchV, name: Seq<char>, st: CatchNamesV) -> CatchNamesV {
    CatchNamesV {
        names: if c.var != u32::MAX && c.var < st.names.len() {
            st.names.update(c.var as int, name)
        } else {
            st.names
        },
        used: st.used.push(name),
    }
}

/// `s` with its catch clauses named, and the names after it.
pub open spec fn catches_named(
    s: StmtV,
    all: Seq<Seq<char>>,
    open: Seq<Seq<char>>,
    st: CatchNamesV,
) -> (StmtV, CatchNamesV)
    decreases s,
{
    match s {
        StmtV::Block(items) => {
            let (items1, st1) = catches_named_seq(items, all, open, st);
            (StmtV::Block(items1), st1)
        },
        StmtV::If { cond, then_stmt, else_stmt } => {
            let (then_stmt1, st1) = catches_named(*then_stmt, all, open, st);
            let (else_stmt1, st2) = catches_named_opt(else_stmt, all, open, st1);
            (StmtV::If { cond, then_stmt: Box::new(then_stmt1), else_stmt: else_stmt1 }, st2)
        },
        StmtV::While { cond, body } => {
            let (body1, st1) = catches_named(*body, all, open, st);
            (StmtV::While { cond, body: Box::new(body1) }, st1)
        },
        StmtV::DoWhile { body, cond } => {
            let (body1, st1) = catches_named(*body, all, open, st);
            (StmtV::DoWhile { body: Box::new(body1), cond }, st1)
        },
        StmtV::For { init, cond, update, body } => {
            let (init1, st1) = catches_named_seq(init, all, open, st);
            let (body1, st2) = catches_named(*body, all, open, st1);
            (StmtV::For { init: init1, cond, update, body: Box::new(body1) }, st2)
        },
        StmtV::ForEach { var, iterable, is_array, body } => {
            let (body1, st1) = catches_named(*body, all, open, st);
            (StmtV::ForEach { var, iterable, is_array, body: Box::new(body1) }, st1)
        },
        StmtV::Switch { selector, cases, default, on_string } => {
            let (cases1, st1) = catches_named_cases(cases, all, open, st);
            let (default1, st2) = catches_named_opt(default, all, open, st1);
            (StmtV::Switch { selector, cases: cases1, default: default1, on_string }, st2)
        },
        StmtV::Try { body, catches, finally } => {
            let (body1, st1) = catches_named(*body, all, open, st);
            let (catches1, st2) = catches_named_catches(catches, all, open, st1);
            let (finally1, st3) = catches_named_opt(finally, all, open, st2);
            (StmtV::Try { body: Box::new(body1), catches: catches1, finally: finally1 }, st3)
        },
        StmtV::TryWithResources { resources, body, catches, finally } => {
            let (resources1, st1) = catches_named_seq(resources, all, open, st);
            let (body1, st2) = catches_named(*body, all, open, st1);
            let (catches1, st3) = catches_named_catches(catches, all, open, st2);
            let (finally1, st4) = catches_named_opt(finally, all, open, st3);
            (
                StmtV::TryWithResources {
                    resources: resources1,
                    body: Box::new(body1),
                    catches: catches1,
                    finally: finally1,
                },
                st4,
            )
        },
        StmtV::Synchronized { lock, body } => {
            let (body1, st1) = catches_named(*body, all, open, st);
            (StmtV::Synchronized { lock, body: Box::new(body1) }, st1)
        },
        StmtV::Labeled { label, body } => {
            let (body1, st1) = catches_named(*body, all, open, st);
            (StmtV::Labeled { label, body: Box::new(body1) }, st1)
        },
        _ => (s, st),
    }
}

/// [`catches_named`] where there is a value.
pub open spec fn catches_named_opt(
    o: Option<Box<StmtV>>,
    all: Seq<Seq<char>>,
    open: Seq<Seq<char>>,
    st: CatchNamesV,
) -> (Option<Box<StmtV>>, CatchNamesV)
    decreases o,
{
    match o {
        Some(x) => {
            let (y, st1) = catches_named(*x, all, open, st);
            (Some(Box::new(y)), st1)
        },
        None => (None, st),
    }
}

/// [`catches_named`] over a list, in order.
pub open spec fn catches_named_seq(
    v: Seq<StmtV>,
    all: Seq<Seq<char>>,
    open: Seq<Seq<char>>,
    st: CatchNamesV,
) -> (Seq<StmtV>, CatchNamesV)
    decreases v,
{
    if v.len() == 0 {
        (seq![], st)
    } else {
        let (front, st1) = catches_named_seq(v.drop_last(), all, open, st);
        let (last, st2) = catches_named(v.last(), all, open, st1);
        (front.push(last), st2)
    }
}

/// [`catches_named`] inside a switch arm.
pub open spec fn catches_named_case(
    c: CaseGroupV,
    all: Seq<Seq<char>>,
    open: Seq<Seq<char>>,
    st: CatchNamesV,
) -> (CaseGroupV, CatchNamesV)
    decreases c,
{
    let (body, st9) = catches_named_seq(c.body, all, open, st);
    (CaseGroupV { body, ..c }, st9)
}

/// [`catches_named`] over a list, in order.
pub open spec fn catches_named_cases(
    v: Seq<CaseGroupV>,
    all: Seq<Seq<char>>,
    open: Seq<Seq<char>>,
    st: CatchNamesV,
) -> (Seq<CaseGroupV>, CatchNamesV)
    decreases v,
{
    if v.len() == 0 {
        (seq![], st)
    } else {
        let (front, st1) = catches_named_cases(v.drop_last(), all, open, st);
        let (last, st2) = catches_named_case(v.last(), all, open, st1);
        (front.push(last), st2)
    }
}

/// [`catches_named`] inside a catch clause.
pub open spec fn catches_named_catch(
    c: CatchV,
    all: Seq<Seq<char>>,
    open: Seq<Seq<char>>,
    st: CatchNamesV,
) -> (CatchV, CatchNamesV)
    decreases c,
{
    let name = catch_name(c, all, open, st);
    let (body, st1) = catches_named(*c.body, all, open.push(name), with_catch_name(c, name, st));
    (CatchV { var_name: Some(name), body: Box::new(body), ..c }, st1)
}

/// [`catches_named`] over a list, in order.
pub open spec fn catches_named_catches(
    v: Seq<CatchV>,
    all: Seq<Seq<char>>,
    open: Seq<Seq<char>>,
    st: CatchNamesV,
) -> (Seq<CatchV>, CatchNamesV)
    decreases v,
{
    if v.len() == 0 {
        (seq![], st)
    } else {
        let (front, st1) = catches_named_catches(v.drop_last(), all, open, st);
        let (last, st2) = catches_named_catch(v.last(), all, open, st1);
        (front.push(last), st2)
    }
}

/// Names the catch clauses of `s`. `all` are the names that variables had at first,
/// `open` those of the clauses around `s`.
pub fn assign_catch_names_rec(
    s: &mut Stmt,
    all: &Vec<String>,
    open: &Vec<String>,
    st: &mut CatchNames,
)
    ensures
        final(s)@ == catches_named(old(s)@, strs(all@), strs(open@), old(st)@).0,
        final(st)@ == catches_named(old(s)@, strs(all@), strs(open@), old(st)@).1,
    decreases *old(s),
{
    match s {
        Stmt::Block(items) => { assign_catch_names_rec_vec(items, all, open, st); },
        Stmt::If { then_stmt, else_stmt, .. } => {
            assign_catch_names_rec(then_stmt, all, open, st);
            assign_catch_names_rec_opt(else_stmt, all, open, st);
        },
        Stmt::While { body, .. } => { assign_catch_names_rec(body, all, open, st); },
        Stmt::DoWhile { body, .. } => { assign_catch_names_rec(body, all, open, st); },
        Stmt::For { init, body, .. } => {
            assign_catch_names_rec_vec(init, all, open, st);
            assign_catch_names_rec(body, all, open, st);
        },
        Stmt::ForEach { body, .. } => { assign_catch_names_rec(body, all, open, st); },
        Stmt::Switch { cases, default, .. } => {
            assign_catch_names_rec_cases(cases, all, open, st);
            assign_catch_names_rec_opt(default, all, open, st);
        },
        Stmt::Try { body, catches, finally } => {
            assign_catch_names_rec(body, all, open, st);
            assign_catch_names_rec_catches(catches, all, open, st);
            assign_catch_names_rec_opt(finally, all, open, st);
        },
        Stmt::TryWithResources { resources, body, catches, finally } => {
            assign_catch_names_rec_vec(resources, all, open, st);
            assign_catch_names_rec(body, all, open, st);
            assign_catch_names_rec_catches(catches, all, open, st);
            assign_catch_names_rec_opt(finally, all, open, st);
        },
        Stmt::Synchronized { body, .. } => { assign_catch_names_rec(body, all, open, st); },
        Stmt::Labeled { body, .. } => { assign_catch_names_rec(body, all, open, st); },
        _ => {},
    }
}

/// `assign_catch_names_rec` where there is a value.
pub fn assign_catch_names_rec_opt(
    o: &mut Option<Box<Stmt>>,
    all: &Vec<String>,
    open: &Vec<String>,
    st: &mut CatchNames,
)
    ensures
        opt_stmt(*final(o)) == catches_named_opt(
            opt_stmt(*old(o)),
            strs(all@),
            strs(open@),
            old(st)@,
        ).0,
        final(st)@ == catches_named_opt(opt_stmt(*old(o)), strs(all@), strs(open@), old(st)@).1,
    decreases *old(o),
{
    if let Some(x) = o {
        assign_catch_names_rec(x, all, open, st);
    }
}

/// `assign_catch_names_rec` over a list, in order.
#[verifier::loop_isolation(false)]
pub fn assign_catch_names_rec_vec(
    v: &mut Vec<Stmt>,
    all: &Vec<String>,
    open: &Vec<String>,
    st: &mut CatchNames,
)
    ensures
        stmts(final(v)@) == catches_named_seq(stmts(old(v)@), strs(all@), strs(open@), old(st)@).0,
        final(st)@ == catches_named_seq(stmts(old(v)@), strs(all@), strs(open@), old(st)@).1,
    decreases *old(v),
{
    let mut i: usize = 0;
    assert(stmts(v@.take(0)) =~= seq![]);
    while i < v.len()
        invariant
            i <= v.len(),
            v.len() == old(v).len(),
            stmts(v@.take(i as int)) == catches_named_seq(
                stmts(old(v)@).take(i as int),
                strs(all@),
                strs(open@),
                old(st)@,
            ).0,
            st@ == catches_named_seq(
                stmts(old(v)@).take(i as int),
                strs(all@),
                strs(open@),
                old(st)@,
            ).1,
            forall|j: int| i <= j < v.len() ==> #[trigger] v@[j] == old(v)@[j],
        decreases v.len() - i,
    {
        let ghost before = stmts(v@.take(i as int));
        let ghost done = stmts(old(v)@).take(i + 1);
        assert(done.drop_last() =~= stmts(old(v)@).take(i as int));
        assert(done.last() == v@[i as int]@);
        assert(decreases_to!(*old(v) => v@[i as int]));
        assign_catch_names_rec(&mut v[i], all, open, st);
        i += 1;
        assert(stmts(v@.take(i as int)) =~= before.push(v@[i - 1]@));
    }
    assert(v@.take(i as int) =~= v@);
    assert(stmts(old(v)@).take(i as int) =~= stmts(old(v)@));
}

/// `assign_catch_names_rec` inside a switch arm.
pub fn assign_catch_names_rec_case(
    c: &mut CaseGroup,
    all: &Vec<String>,
    open: &Vec<String>,
    st: &mut CatchNames,
)
    ensures
        final(c)@ == catches_named_case(old(c)@, strs(all@), strs(open@), old(st)@).0,
        final(st)@ == catches_named_case(old(c)@, strs(all@), strs(open@), old(st)@).1,
    decreases *old(c),
{
    assign_catch_names_rec_vec(&mut c.body, all, open, st);
}

/// `assign_catch_names_rec` over a list, in order.
#[verifier::loop_isolation(false)]
pub fn assign_catch_names_rec_cases(
    v: &mut Vec<CaseGroup>,
    all: &Vec<String>,
    open: &Vec<String>,
    st: &mut CatchNames,
)
    ensures
        case_groups(final(v)@) == catches_named_cases(
            case_groups(old(v)@),
            strs(all@),
            strs(open@),
            old(st)@,
        ).0,
        final(st)@ == catches_named_cases(
            case_groups(old(v)@),
            strs(all@),
            strs(open@),
            old(st)@,
        ).1,
    decreases *old(v),
{
    let mut i: usize = 0;
    assert(case_groups(v@.take(0)) =~= seq![]);
    while i < v.len()
        invariant
            i <= v.len(),
            v.len() == old(v).len(),
            case_groups(v@.take(i as int)) == catches_named_cases(
                case_groups(old(v)@).take(i as int),
                strs(all@),
                strs(open@),
                old(st)@,
            ).0,
            st@ == catches_named_cases(
                case_groups(old(v)@).take(i as int),
                strs(all@),
                strs(open@),
                old(st)@,
            ).1,
            forall|j: int| i <= j < v.len() ==> #[trigger] v@[j] == old(v)@[j],
        decreases v.len() - i,
    {
        let ghost before = case_groups(v@.take(i as int));
        let ghost done = case_groups(old(v)@).take(i + 1);
        assert(done.drop_last() =~= case_groups(old(v)@).take(i as int));
        assert(done.last() == v@[i as int]@);
        assert(decreases_to!(*old(v) => v@[i as int]));
        assign_catch_names_rec_case(&mut v[i], all, open, st);
        i += 1;
        assert(case_groups(v@.take(i as int)) =~= before.push(v@[i - 1]@));
    }
    assert(v@.take(i as int) =~= v@);
    assert(case_groups(old(v)@).take(i as int) =~= case_groups(old(v)@));
}

/// `assign_catch_names_rec` inside a catch clause.
pub fn assign_catch_names_rec_catch(
    c: &mut Catch,
    all: &Vec<String>,
    open: &Vec<String>,
    st: &mut CatchNames,
)
    ensures
        final(c)@ == catches_named_catch(old(c)@, strs(all@), strs(open@), old(st)@).0,
        final(st)@ == catches_named_catch(old(c)@, strs(all@), strs(open@), old(st)@).1,
    decreases *old(c),
{
    let in_range = c.var != u32::MAX && (c.var as usize) < st.names.len();
    let base = if in_range {
        st.names[c.var as usize].clone()
    } else {
        "ignored".to_owned()
    };
    let name = if contains_string(open, base.as_str()) || str_eq(base.as_str(), "ignored")
        || shared_name(all, base.as_str()) {
        pick_fresh(&st.used, open)
    } else {
        base
    };
    let ghost start = st@;
    st.used.push(name.clone());
    assert(strs(st.used@) =~= start.used.push(name@));
    let mut inner = clone_strings(open);
    inner.push(name.clone());
    assert(strs(inner@) =~= strs(open@).push(name@));
    if in_range {
        st.names[c.var as usize] = name.clone();
        assert(strs(st.names@) =~= start.names.update(c.var as int, name@));
    }
    c.var_name = Some(name);
    assign_catch_names_rec(&mut c.body, all, &inner, st);
}

/// `assign_catch_names_rec` over a list, in order.
#[verifier::loop_isolation(false)]
pub fn assign_catch_names_rec_catches(
    v: &mut Vec<Catch>,
    all: &Vec<String>,
    open: &Vec<String>,
    st: &mut CatchNames,
)
    ensures
        catch_list(final(v)@) == catches_named_catches(
            catch_list(old(v)@),
            strs(all@),
            strs(open@),
            old(st)@,
        ).0,
        final(st)@ == catches_named_catches(
            catch_list(old(v)@),
            strs(all@),
            strs(open@),
            old(st)@,
        ).1,
    decreases *old(v),
{
    let mut i: usize = 0;
    assert(catch_list(v@.take(0)) =~= seq![]);
    while i < v.len()
        invariant
            i <= v.len(),
            v.len() == old(v).len(),
            catch_list(v@.take(i as int)) == catches_named_catches(
                catch_list(old(v)@).take(i as int),
                strs(all@),
                strs(open@),
                old(st)@,
            ).0,
            st@ == catches_named_catches(
                catch_list(old(v)@).take(i as int),
                strs(all@),
                strs(open@),
                old(st)@,
            ).1,
            forall|j: int| i <= j < v.len() ==> #[trigger] v@[j] == old(v)@[j],
        decreases v.len() - i,
    {
        let ghost before = catch_list(v@.take(i as int));
        let ghost done = catch_list(old(v)@).take(i + 1);
        assert(done.drop_last() =~= catch_list(old(v)@).take(i as int));
        assert(done.last() == v@[i as int]@);
        assert(decreases_to!(*old(v) => v@[i as int]));
        assign_catch_names_rec_catch(&mut v[i], all, open, st);
        i += 1;
        assert(catch_list(v@.take(i as int)) =~= before.push(v@[i - 1]@));
    }
    assert(v@.take(i as int) =~= v@);
    assert(catch_list(old(v)@).take(i as int) =~= catch_list(old(v)@));
}

/// Whether two variables have this name.
#[verifier::loop_isolation(false)]
fn shared_name(all: &Vec<String>, name: &str) -> (r: bool)
    ensures
        r == is_shared(strs(all@), name@),
{
    let mut first: Option<usize> = None;
    let mut i: usize = 0;
    while i < all.len()
        invariant
            i <= all.len(),
            match first {
                Some(f) => f < i && strs(all@)[f as int] == name@ && forall|j: int|
                    0 <= j < i && j != f ==> #[trigger] strs(all@)[j] != name@,
                None => forall|j: int| 0 <= j < i ==> #[trigger] strs(all@)[j] != name@,
            },
        decreases all.len() - i,
    {
        assert(strs(all@)[i as int] == all@[i as int]@);
        if str_eq(all[i].as_str(), name) {
            if let Some(f) = first {
                assert(strs(all@)[f as int] == name@ && strs(all@)[i as int] == name@);
                return true;
            }
            first = Some(i);
        }
        i += 1;
    }
    false
}

/// If the first `m` candidates are all taken, there are at least `m` taken names.
proof fn lemma_taken(m: nat, used: Seq<Seq<char>>, open: Seq<Seq<char>>)
    requires
        forall|j: nat| 1 <= j <= m ==> !is_free(#[trigger] e_name(j), used, open),
    ensures
        m <= used.len() + open.len(),
{
    let taken = used + open;
    assert forall|j: nat| 1 <= j <= m implies taken.contains(#[trigger] numbered(seq!['e'], j)) by {
        let x = e_name(j);
        assert(!is_free(x, used, open));
        if used.contains(x) {
            let k = choose|k: int| 0 <= k < used.len() && used[k] == x;
            assert(taken[k] == x);
        } else {
            let k = choose|k: int| 0 <= k < open.len() && open[k] == x;
            assert(taken[used.len() + k] == x);
        }
    }
    lemma_numbered_taken(seq!['e'], m, taken);
}

/// Some candidate name is free.
pub proof fn lemma_free_exists(used: Seq<Seq<char>>, open: Seq<Seq<char>>, from: nat)
    requires
        from >= 1,
        forall|j: nat| 1 <= j < from ==> !is_free(#[trigger] e_name(j), used, open),
    ensures
        exists|k: nat| is_least_free(k, used, open),
    decreases used.len() + open.len() + 2 - from,
{
    lemma_taken((from - 1) as nat, used, open);
    if is_free(e_name(from), used, open) {
        assert(is_least_free(from, used, open));
    } else {
        assert forall|j: nat| 1 <= j < from + 1 implies !is_free(
            #[trigger] e_name(j),
            used,
            open,
        ) by {}
        lemma_taken(from, used, open);
        lemma_free_exists(used, open, from + 1);
    }
}

/// The first free candidate name.
#[verifier::loop_isolation(false)]
fn pick_fresh(used: &Vec<String>, open: &Vec<String>) -> (r: String)
    ensures
        r@ == fresh_name(strs(used@), strs(open@)),
{
    proof {
        reveal_strlit("e");
    }
    let ghost u = strs(used@);
    let ghost o = strs(open@);
    let mut k: u128 = 1;
    loop
        invariant
            1 <= k <= used.len() + open.len() + 1,
            forall|j: nat| 1 <= j < k ==> !is_free(#[trigger] e_name(j), u, o),
        decreases used.len() + open.len() + 2 - k,
    {
        let mut name: String = "e".to_owned();
        append_decimal(&mut name, k);
        assert(name@ =~= e_name(k as nat));
        if !contains_string(used, name.as_str()) && !contains_string(open, name.as_str()) {
            proof {
                assert(is_least_free(k as nat, u, o));
                let c = choose|c: nat| is_least_free(c, u, o);
                if c < k {
                    assert(!is_free(e_name(c), u, o));
                } else if k < c {
                    assert(!is_free(e_name(k as nat), u, o));
                }
            }
            return name;
        }
        proof {
            assert forall|j: nat| 1 <= j <= k implies !is_free(#[trigger] e_name(j), u, o) by {}
            lemma_taken(k as nat, u, o);
        }
        k += 1;
    }
}

/// The names of all variables.
pub open spec fn var_names(vt: VarTableV) -> Seq<Seq<char>> {
    Seq::new(vt.vars.len(), |i: int| vt.vars[i].name)
}

/// The table with the variables named `names`.
pub open spec fn with_names(vt: VarTableV, names: Seq<Seq<char>>) -> VarTableV {
    VarTableV {
        vars: Seq::new(
            vt.vars.len(),
            |i: int|
                if 0 <= i < names.len() {
                    VarInfoV { name: names[i], ..vt.vars[i] }
                } else {
                    vt.vars[i]
                },
        ),
        ..vt
    }
}

/// The names of all variables.
#[verifier::loop_isolation(false)]
pub fn names_of(vt: &VarTable) -> (r: Vec<String>)
    ensures
        strs(r@) == var_names(vt@),
{
    let mut all: Vec<String> = Vec::new();
    let mut i: usize = 0;
    while i < vt.vars.len()
        invariant
            i <= vt.vars.len(),
            all.len() == i,
            forall|j: int| 0 <= j < i ==> (#[trigger] all@[j])@ == vt@.vars[j].name,
        decreases vt.vars.len() - i,
    {
        all.push(vt.vars[i].name.clone());
        i += 1;
    }
    assert(strs(all@) =~= var_names(vt@));
    all
}

/// Names the variables.
#[verifier::loop_isolation(false)]
pub fn set_names(vt: &mut VarTable, list: &Vec<String>)
    ensures
        final(vt)@ == with_names(old(vt)@, strs(list@)),
{
    let ghost names = strs(list@);
    let ghost start = vt@;
    let mut i: usize = 0;
    while i < vt.vars.len() && i < list.len()
        invariant
            i <= vt.vars.len(),
            vt.vars.len() == start.vars.len(),
            i <= list.len(),
            forall|j: int| 0 <= j < i ==> (#[trigger] vt.vars@[j])@ == (VarInfoV {
                name: names[j],
                ..start.vars[j]
            }),
            forall|j: int| i <= j < vt.vars.len() ==> (#[trigger] vt.vars@[j])@ == start.vars[j],
            vt.by_slot == old(vt).by_slot,
            vt.has_lvt == old(vt).has_lvt,
            vt.stack_vars == old(vt).stack_vars,
            vt.wide_stack_vars == old(vt).wide_stack_vars,
            vt.handler_starts == old(vt).handler_starts,
        decreases vt.vars.len() - i,
    {
        assert(names[i as int] == list@[i as int]@);
        vt.vars[i].name = list[i].clone();
        i += 1;
    }
    assert(var_infos(vt.vars@) =~= with_names(start, names).vars);
}

/// The outcome of naming all catch clauses of `s`.
pub open spec fn all_catches_named(s: StmtV, vt: VarTableV) -> (StmtV, CatchNamesV) {
    catches_named(
        s,
        var_names(vt),
        seq![],
        CatchNamesV { names: var_names(vt), used: var_names(vt) },
    )
}

/// Gives every catch clause a printed name that is not open further out, and its
/// variable the same name.
pub fn assign_catch_names(vt: &mut VarTable, s: &mut Stmt)
    ensures
        final(s)@ == all_catches_named(old(s)@, old(vt)@).0,
        final(vt)@ == with_names(old(vt)@, all_catches_named(old(s)@, old(vt)@).1.names),
{
    let all = names_of(vt);
    let mut st = CatchNames { names: clone_strings(&all), used: clone_strings(&all) };
    let open: Vec<String> = Vec::new();
    assert(strs(open@) =~= seq![]);
    assign_catch_names_rec(s, &all, &open, &mut st);
    set_names(vt, &st.names);
}

} // verus!
