//! Guards with an empty branch before a `throw` or `return`.
use crate::stmt::{
    case_groups, catch_list, clone_stmt, is_empty_block, opt_stmt, stmts, CaseGroup, CaseGroupV,
    Catch, CatchV, Stmt, StmtV,
};
use vstd::prelude::*;

verus! {

/// `if (c) {} else { .. }` right before a `throw` or `return`.
pub open spec fn is_empty_guard(s: StmtV, next: StmtV) -> bool {
    &&& s matches StmtV::If { then_stmt, else_stmt, .. } && (is_empty_block(*then_stmt)
        && else_stmt is Some)
    &&& next is Throw || next is Return
}

/// An `if` with `next` as its first branch.
pub open spec fn with_then(s: StmtV, next: StmtV) -> StmtV {
    match s {
        StmtV::If { cond, else_stmt, .. } => StmtV::If {
            cond,
            then_stmt: Box::new(next),
            else_stmt,
        },
        _ => s,
    }
}

/// The statements of a block with its guards rotated: an empty guard gets a copy of
/// the statement after it.
pub open spec fn rotated_list(v: Seq<StmtV>) -> Seq<StmtV>
    decreases v, 0nat,
{
    Seq::new(
        v.len(),
        |i: int|
            if 0 <= i < v.len() {
                if i + 1 < v.len() && is_empty_guard(v[i], v[i + 1]) {
                    with_then(v[i], v[i + 1])
                } else {
                    rotated(v[i])
                }
            } else {
                arbitrary()
            },
    )
}

/// `s` with the guards in its blocks rotated.
pub open spec fn rotated(s: StmtV) -> StmtV
    decreases s, 0nat,
{
    match s {
        StmtV::Block(items) => StmtV::Block(rotated_list(items)),
        StmtV::If { cond, then_stmt, else_stmt } => StmtV::If {
            cond,
            then_stmt: Box::new(rotated(*then_stmt)),
            else_stmt: rotated_opt(else_stmt),
        },
        StmtV::While { cond, body } => StmtV::While { cond, body: Box::new(rotated(*body)) },
        StmtV::DoWhile { body, cond } => StmtV::DoWhile { body: Box::new(rotated(*body)), cond },
        StmtV::For { init, cond, update, body } => StmtV::For {
            init: rotated_seq(init),
            cond,
            update,
            body: Box::new(rotated(*body)),
        },
        StmtV::ForEach { var, iterable, is_array, body } => StmtV::ForEach {
            var,
            iterable,
            is_array,
            body: Box::new(rotated(*body)),
        },
        StmtV::Switch { selector, cases, default, on_string } => StmtV::Switch {
            selector,
            cases: rotated_cases(cases),
            default: rotated_opt(default),
            on_string,
        },
        StmtV::Try { body, catches, finally } => StmtV::Try {
            body: Box::new(rotated(*body)),
            catches: rotated_catches(catches),
            finally: rotated_opt(finally),
        },
        StmtV::TryWithResources { resources, body, catches, finally } => StmtV::TryWithResources {
            resources: rotated_seq(resources),
            body: Box::new(rotated(*body)),
            catches: rotated_catches(catches),
            finally: rotated_opt(finally),
        },
        StmtV::Synchronized { lock, body } => StmtV::Synchronized {
            lock,
            body: Box::new(rotated(*body)),
        },
        StmtV::Labeled { label, body } => StmtV::Labeled { label, body: Box::new(rotated(*body)) },
        _ => s,
    }
}

/// [`rotated`] where there is a value.
pub open spec fn rotated_opt(o: Option<Box<StmtV>>) -> Option<Box<StmtV>>
    decreases o, 0nat,
{
    match o {
        Some(x) => Some(Box::new(rotated(*x))),
        None => None,
    }
}

/// [`rotated`] over a list.
pub open spec fn rotated_seq(v: Seq<StmtV>) -> Seq<StmtV>
    decreases v, 0nat,
{
    Seq::new(v.len(), |i: int| if 0 <= i < v.len() { rotated(v[i]) } else { arbitrary() })
}

/// [`rotated`] inside a switch arm.
pub open spec fn rotated_case(c: CaseGroupV) -> CaseGroupV
    decreases c, 0nat,
{
    CaseGroupV { body: rotated_seq(c.body), ..c }
}

/// [`rotated`] over a list.
pub open spec fn rotated_cases(v: Seq<CaseGroupV>) -> Seq<CaseGroupV>
    decreases v, 0nat,
{
    Seq::new(v.len(), |i: int| if 0 <= i < v.len() { rotated_case(v[i]) } else { arbitrary() })
}

/// [`rotated`] inside a catch clause.
pub open spec fn rotated_catch(c: CatchV) -> CatchV
    decreases c, 0nat,
{
    CatchV { body: Box::new(rotated(*c.body)), ..c }
}

/// [`rotated`] over a list.
pub open spec fn rotated_catches(v: Seq<CatchV>) -> Seq<CatchV>
    decreases v, 0nat,
{
    Seq::new(v.len(), |i: int| if 0 <= i < v.len() { rotated_catch(v[i]) } else { arbitrary() })
}

/// Rotates the guards in the blocks of `s`.
pub fn rotate_empty_then(s: &mut Stmt)
    ensures
        final(s)@ == rotated(old(s)@),
    decreases *old(s), 0nat,
{
    match s {
        Stmt::Block(items) => rotate_list(items),
        Stmt::If { then_stmt, else_stmt, .. } => {
            rotate_empty_then(then_stmt);
            rotate_empty_then_opt(else_stmt);
        },
        Stmt::While { body, .. } => { rotate_empty_then(body); },
        Stmt::DoWhile { body, .. } => { rotate_empty_then(body); },
        Stmt::For { init, body, .. } => { rotate_empty_then_vec(init); rotate_empty_then(body); },
        Stmt::ForEach { body, .. } => { rotate_empty_then(body); },
        Stmt::Switch { cases, default, .. } => {
            rotate_empty_then_cases(cases);
            rotate_empty_then_opt(default);
        },
        Stmt::Try { body, catches, finally } => {
            rotate_empty_then(body);
            rotate_empty_then_catches(catches);
            rotate_empty_then_opt(finally);
        },
        Stmt::TryWithResources { resources, body, catches, finally } => {
            rotate_empty_then_vec(resources);
            rotate_empty_then(body);
            rotate_empty_then_catches(catches);
            rotate_empty_then_opt(finally);
        },
        Stmt::Synchronized { body, .. } => { rotate_empty_then(body); },
        Stmt::Labeled { body, .. } => { rotate_empty_then(body); },
        _ => {},
    }
}

/// `rotate_empty_then` where there is a value.
pub fn rotate_empty_then_opt(o: &mut Option<Box<Stmt>>)
    ensures
        opt_stmt(*final(o)) == rotated_opt(opt_stmt(*old(o))),
    decreases *old(o), 0nat,
{
    if let Some(x) = o {
        rotate_empty_then(x);
    }
}

/// `rotate_empty_then` over a list.
#[verifier::loop_isolation(false)]
pub fn rotate_empty_then_vec(v: &mut Vec<Stmt>)
    ensures
        stmts(final(v)@) == rotated_seq(stmts(old(v)@)),
    decreases *old(v), 0nat,
{
    let mut i: usize = 0;
    while i < v.len()
        invariant
            i <= v.len(),
            v.len() == old(v).len(),
            forall|j: int| 0 <= j < i ==> (#[trigger] v@[j])@ == rotated(old(v)@[j]@),
            forall|j: int| i <= j < v.len() ==> #[trigger] v@[j] == old(v)@[j],
        decreases v.len() - i,
    {
        assert(decreases_to!(*old(v) => v@[i as int]));
        rotate_empty_then(&mut v[i]);
        i += 1;
    }
    assert(stmts(v@) =~= rotated_seq(stmts(old(v)@)));
}

/// `rotate_empty_then` inside a switch arm.
pub fn rotate_empty_then_case(c: &mut CaseGroup)
    ensures
        final(c)@ == rotated_case(old(c)@),
    decreases *old(c), 0nat,
{
    rotate_empty_then_vec(&mut c.body);
}

/// `rotate_empty_then` over a list.
#[verifier::loop_isolation(false)]
pub fn rotate_empty_then_cases(v: &mut Vec<CaseGroup>)
    ensures
        case_groups(final(v)@) == rotated_cases(case_groups(old(v)@)),
    decreases *old(v), 0nat,
{
    let mut i: usize = 0;
    while i < v.len()
        invariant
            i <= v.len(),
            v.len() == old(v).len(),
            forall|j: int| 0 <= j < i ==> (#[trigger] v@[j])@ == rotated_case(old(v)@[j]@),
            forall|j: int| i <= j < v.len() ==> #[trigger] v@[j] == old(v)@[j],
        decreases v.len() - i,
    {
        assert(decreases_to!(*old(v) => v@[i as int]));
        rotate_empty_then_case(&mut v[i]);
        i += 1;
    }
    assert(case_groups(v@) =~= rotated_cases(case_groups(old(v)@)));
}

/// `rotate_empty_then` inside a catch clause.
pub fn rotate_empty_then_catch(c: &mut Catch)
    ensures
        final(c)@ == rotated_catch(old(c)@),
    decreases *old(c), 0nat,
{
    rotate_empty_then(&mut c.body);
}

/// `rotate_empty_then` over a list.
#[verifier::loop_isolation(false)]
pub fn rotate_empty_then_catches(v: &mut Vec<Catch>)
    ensures
        catch_list(final(v)@) == rotated_catches(catch_list(old(v)@)),
    decreases *old(v), 0nat,
{
    let mut i: usize = 0;
    while i < v.len()
        invariant
            i <= v.len(),
            v.len() == old(v).len(),
            forall|j: int| 0 <= j < i ==> (#[trigger] v@[j])@ == rotated_catch(old(v)@[j]@),
            forall|j: int| i <= j < v.len() ==> #[trigger] v@[j] == old(v)@[j],
        decreases v.len() - i,
    {
        assert(decreases_to!(*old(v) => v@[i as int]));
        rotate_empty_then_catch(&mut v[i]);
        i += 1;
    }
    assert(catch_list(v@) =~= rotated_catches(catch_list(old(v)@)));
}

/// Whether `s` is an empty guard before `next`.
fn empty_guard(s: &Stmt, next: &Stmt) -> (r: bool)
    ensures
        r == is_empty_guard(s@, next@),
{
    let guard = match s {
        Stmt::If { then_stmt, else_stmt, .. } => {
            assert(opt_stmt(*else_stmt) is Some == else_stmt.is_some());
            else_stmt.is_some() && then_stmt.is_empty_block()
        },
        _ => false,
    };
    guard && match next {
        Stmt::Throw(_) => true,
        Stmt::Return(_) => true,
        _ => false,
    }
}

/// Gives an `if` another first branch.
fn set_then(s: &mut Stmt, next: Stmt)
    ensures
        final(s)@ == with_then(old(s)@, next@),
{
    if let Stmt::If { then_stmt, .. } = s {
        *then_stmt = Box::new(next);
    }
}

/// Rotates the guards of a block.
#[verifier::loop_isolation(false)]
fn rotate_list(v: &mut Vec<Stmt>)
    ensures
        stmts(final(v)@) == rotated_list(stmts(old(v)@)),
    decreases *old(v), 0nat,
{
    let ghost all = stmts(v@);
    let mut i: usize = 0;
    while i < v.len()
        invariant
            i <= v.len(),
            v.len() == old(v).len(),
            forall|j: int| 0 <= j < i ==> (#[trigger] v@[j])@ == rotated_list(all)[j],
            forall|j: int| i <= j < v.len() ==> #[trigger] v@[j] == old(v)@[j],
        decreases v.len() - i,
    {
        assert(decreases_to!(*old(v) => v@[i as int]));
        assert(all[i as int] == v@[i as int]@);
        let mut done = false;
        if i + 1 < v.len() {
            assert(all[i + 1] == v@[i + 1]@);
            if empty_guard(&v[i], &v[i + 1]) {
                let next = clone_stmt(&v[i + 1]);
                set_then(&mut v[i], next);
                done = true;
            }
        }
        if !done {
            rotate_empty_then(&mut v[i]);
        }
        i += 1;
    }
    assert(stmts(v@) =~= rotated_list(all));
}

} // verus!
