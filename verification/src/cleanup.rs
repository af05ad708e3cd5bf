//! Structural cleanup: nested blocks flattened, empty ones dropped.
use crate::stmt::{
    case_groups, catch_list, is_empty_block, opt_stmt, stmts, take_stmt, CaseGroup, CaseGroupV,
    Catch, CatchV, Stmt, StmtV,
};
use vstd::prelude::*;

verus! {

/// The statements of `v`, those of a block in place of the block.
pub open spec fn flat(v: Seq<StmtV>) -> Seq<StmtV>
    decreases v.len(),
{
    if v.len() == 0 {
        seq![]
    } else {
        flat(v.drop_last()) + flat_one(v.last())
    }
}

/// The statements of a block, or the statement alone.
pub open spec fn flat_one(s: StmtV) -> Seq<StmtV> {
    match s {
        StmtV::Block(inner) => inner,
        _ => seq![s],
    }
}

/// `v` without its empty blocks.
pub open spec fn nonempty(v: Seq<StmtV>) -> Seq<StmtV>
    decreases v.len(),
{
    if v.len() == 0 {
        seq![]
    } else {
        nonempty(v.drop_last()) + if is_empty_block(v.last()) {
            seq![]
        } else {
            seq![v.last()]
        }
    }
}

/// A block of a single block is that block.
pub open spec fn unwrapped(s: StmtV) -> StmtV {
    match s {
        StmtV::Block(v) => if v.len() == 1 && v[0] is Block {
            v[0]
        } else {
            s
        },
        _ => s,
    }
}

/// Replaces each block of `v` by its statements.
#[verifier::loop_isolation(false)]
pub fn flatten_vec(v: &mut Vec<Stmt>)
    ensures
        stmts(final(v)@) == flat(stmts(old(v)@)),
{
    let ghost all = stmts(v@);
    let mut out: Vec<Stmt> = Vec::new();
    let mut i: usize = 0;
    assert(stmts(out@) =~= flat(all.take(0)));
    while i < v.len()
        invariant
            i <= v.len(),
            v.len() == old(v).len(),
            forall|j: int| i <= j < v.len() ==> #[trigger] v@[j] == old(v)@[j],
            stmts(out@) == flat(all.take(i as int)),
        decreases v.len() - i,
    {
        let ghost before = out@;
        assert(all.take(i + 1).drop_last() =~= all.take(i as int));
        assert(all.take(i + 1).last() == v@[i as int]@);
        match take_stmt(&mut v[i]) {
            Stmt::Block(mut inner) => {
                let ghost part = inner@;
                out.append(&mut inner);
                assert(stmts(out@) =~= stmts(before) + stmts(part));
            },
            other => {
                let ghost x = other@;
                out.push(other);
                assert(stmts(out@) =~= stmts(before) + seq![x]);
            },
        }
        i += 1;
    }
    assert(all.take(i as int) =~= all);
    *v = out;
}

/// Drops the empty blocks of `v`.
#[verifier::loop_isolation(false)]
pub fn drop_empty(v: &mut Vec<Stmt>)
    ensures
        stmts(final(v)@) == nonempty(stmts(old(v)@)),
{
    let mut i: usize = 0;
    let ghost mut k: int = 0;
    while i < v.len()
        invariant
            0 <= i <= k <= old(v).len(),
            v.len() - i == old(v).len() - k,
            forall|j: int| i <= j < v.len() ==> #[trigger] v@[j] == old(v)@[j - i + k],
            stmts(v@.take(i as int)) == nonempty(stmts(old(v)@).take(k)),
        decreases v.len() - i,
    {
        let ghost before = stmts(v@.take(i as int));
        let ghost done = stmts(old(v)@).take(k + 1);
        assert(done.drop_last() =~= stmts(old(v)@).take(k));
        assert(done.last() == v@[i as int]@);
        if keep_nonempty(&mut v[i]) {
            i += 1;
            assert(stmts(v@.take(i as int)) =~= before.push(v@[i - 1]@));
        } else {
            let ghost whole = v@;
            v.remove(i);
            assert(v@.take(i as int) =~= whole.take(i as int));
            assert(stmts(v@.take(i as int)) =~= before);
        }
        proof {
            k = k + 1;
            assert(stmts(v@.take(i as int)) =~= nonempty(done));
        }
    }
    assert(v@.take(i as int) =~= v@);
    assert(stmts(old(v)@).take(k) =~= stmts(old(v)@));
}

/// Whether a statement is anything but an empty block.
fn keep_nonempty(s: &mut Stmt) -> (keep: bool)
    ensures
        *final(s) == *old(s),
        keep == !is_empty_block(old(s)@),
{
    !s.is_empty_block()
}

/// `s` with nested blocks flattened, empty ones dropped, and a `try` that catches
/// nothing replaced by its body.
pub open spec fn cleaned(s: StmtV) -> StmtV
    decreases s,
{
    match s {
        StmtV::Block(items) => unwrapped(StmtV::Block(nonempty(flat(cleaned_seq(items))))),
        StmtV::If { cond, then_stmt, else_stmt } => StmtV::If {
            cond,
            then_stmt: Box::new(cleaned(*then_stmt)),
            else_stmt: cleaned_opt(else_stmt),
        },
        StmtV::While { cond, body } => StmtV::While { cond, body: Box::new(cleaned(*body)) },
        StmtV::DoWhile { body, cond } => StmtV::DoWhile { body: Box::new(cleaned(*body)), cond },
        StmtV::For { init, cond, update, body } => StmtV::For {
            init: cleaned_seq(init),
            cond,
            update,
            body: Box::new(cleaned(*body)),
        },
        StmtV::ForEach { var, iterable, is_array, body } => StmtV::ForEach {
            var,
            iterable,
            is_array,
            body: Box::new(cleaned(*body)),
        },
        StmtV::Switch { selector, cases, default, on_string } => StmtV::Switch {
            selector,
            cases: cleaned_cases(cases),
            default: cleaned_opt(default),
            on_string,
        },
        StmtV::Try { body, catches, finally } => if catches.len() == 0 && finally is None {
            cleaned(*body)
        } else {
            StmtV::Try {
                body: Box::new(cleaned(*body)),
                catches: cleaned_catches(catches),
                finally: cleaned_opt(finally),
            }
        },
        StmtV::TryWithResources { resources, body, catches, finally } => StmtV::TryWithResources {
            resources: cleaned_seq(resources),
            body: Box::new(cleaned(*body)),
            catches: cleaned_catches(catches),
            finally: cleaned_opt(finally),
        },
        StmtV::Synchronized { lock, body } => StmtV::Synchronized {
            lock,
            body: Box::new(cleaned(*body)),
        },
        StmtV::Labeled { label, body } => StmtV::Labeled { label, body: Box::new(cleaned(*body)) },
        _ => s,
    }
}

/// [`cleaned`] where there is a value.
pub open spec fn cleaned_opt(o: Option<Box<StmtV>>) -> Option<Box<StmtV>>
    decreases o,
{
    match o {
        Some(x) => Some(Box::new(cleaned(*x))),
        None => None,
    }
}

/// [`cleaned`] over a list.
pub open spec fn cleaned_seq(v: Seq<StmtV>) -> Seq<StmtV>
    decreases v,
{
    Seq::new(v.len(), |i: int| if 0 <= i < v.len() { cleaned(v[i]) } else { arbitrary() })
}

/// [`cleaned`] inside a switch arm.
pub open spec fn cleaned_case(c: CaseGroupV) -> CaseGroupV
    decreases c,
{
    CaseGroupV { body: cleaned_seq(c.body), ..c }
}

/// [`cleaned`] over a list.
pub open spec fn cleaned_cases(v: Seq<CaseGroupV>) -> Seq<CaseGroupV>
    decreases v,
{
    Seq::new(v.len(), |i: int| if 0 <= i < v.len() { cleaned_case(v[i]) } else { arbitrary() })
}

/// [`cleaned`] inside a catch clause.
pub open spec fn cleaned_catch(c: CatchV) -> CatchV
    decreases c,
{
    CatchV { body: Box::new(cleaned(*c.body)), ..c }
}

/// [`cleaned`] over a list.
pub open spec fn cleaned_catches(v: Seq<CatchV>) -> Seq<CatchV>
    decreases v,
{
    Seq::new(v.len(), |i: int| if 0 <= i < v.len() { cleaned_catch(v[i]) } else { arbitrary() })
}

/// Flattens nested blocks, drops empty ones, and replaces a `try` that catches nothing
/// by its body.
pub fn cleanup(s: &mut Stmt)
    ensures
        final(s)@ == cleaned(old(s)@),
    decreases *old(s),
{
    match s {
        Stmt::Block(items) => {
            cleanup_vec(items);
            flatten_vec(items);
            drop_empty(items);
            unwrap_block(s);
        },
        Stmt::If { then_stmt, else_stmt, .. } => { cleanup(then_stmt); cleanup_opt(else_stmt); },
        Stmt::While { body, .. } => { cleanup(body); },
        Stmt::DoWhile { body, .. } => { cleanup(body); },
        Stmt::For { init, body, .. } => { cleanup_vec(init); cleanup(body); },
        Stmt::ForEach { body, .. } => { cleanup(body); },
        Stmt::Switch { cases, default, .. } => { cleanup_cases(cases); cleanup_opt(default); },
        Stmt::Try { body, catches, finally } => {
            if catches.len() == 0 && finally.is_none() {
                assert(catch_list(catches@).len() == 0);
                assert(opt_stmt(*finally) is None);
                cleanup(body);
                let inner = take_stmt(body);
                *s = inner;
            } else {
                assert(catch_list(catches@).len() == catches@.len());
                assert(opt_stmt(*finally) is None <==> *finally is None);
                cleanup(body);
                cleanup_catches(catches);
                cleanup_opt(finally);
            }
        },
        Stmt::TryWithResources { resources, body, catches, finally } => {
            cleanup_vec(resources);
            cleanup(body);
            cleanup_catches(catches);
            cleanup_opt(finally);
        },
        Stmt::Synchronized { body, .. } => { cleanup(body); },
        Stmt::Labeled { body, .. } => { cleanup(body); },
        _ => {},
    }
}

/// `cleanup` where there is a value.
pub fn cleanup_opt(o: &mut Option<Box<Stmt>>)
    ensures
        opt_stmt(*final(o)) == cleaned_opt(opt_stmt(*old(o))),
    decreases *old(o),
{
    if let Some(x) = o {
        cleanup(x);
    }
}

/// `cleanup` over a list.
#[verifier::loop_isolation(false)]
pub fn cleanup_vec(v: &mut Vec<Stmt>)
    ensures
        stmts(final(v)@) == cleaned_seq(stmts(old(v)@)),
    decreases *old(v),
{
    let mut i: usize = 0;
    while i < v.len()
        invariant
            i <= v.len(),
            v.len() == old(v).len(),
            forall|j: int| 0 <= j < i ==> (#[trigger] v@[j])@ == cleaned(old(v)@[j]@),
            forall|j: int| i <= j < v.len() ==> #[trigger] v@[j] == old(v)@[j],
        decreases v.len() - i,
    {
        assert(decreases_to!(*old(v) => v@[i as int]));
        cleanup(&mut v[i]);
        i += 1;
    }
    assert(stmts(v@) =~= cleaned_seq(stmts(old(v)@)));
}

/// `cleanup` inside a switch arm.
pub fn cleanup_case(c: &mut CaseGroup)
    ensures
        final(c)@ == cleaned_case(old(c)@),
    decreases *old(c),
{
    cleanup_vec(&mut c.body);
}

/// `cleanup` over a list.
#[verifier::loop_isolation(false)]
pub fn cleanup_cases(v: &mut Vec<CaseGroup>)
    ensures
        case_groups(final(v)@) == cleaned_cases(case_groups(old(v)@)),
    decreases *old(v),
{
    let mut i: usize = 0;
    while i < v.len()
        invariant
            i <= v.len(),
            v.len() == old(v).len(),
            forall|j: int| 0 <= j < i ==> (#[trigger] v@[j])@ == cleaned_case(old(v)@[j]@),
            forall|j: int| i <= j < v.len() ==> #[trigger] v@[j] == old(v)@[j],
        decreases v.len() - i,
    {
        assert(decreases_to!(*old(v) => v@[i as int]));
        cleanup_case(&mut v[i]);
        i += 1;
    }
    assert(case_groups(v@) =~= cleaned_cases(case_groups(old(v)@)));
}

/// `cleanup` inside a catch clause.
pub fn cleanup_catch(c: &mut Catch)
    ensures
        final(c)@ == cleaned_catch(old(c)@),
    decreases *old(c),
{
    cleanup(&mut c.body);
}

/// `cleanup` over a list.
#[verifier::loop_isolation(false)]
pub fn cleanup_catches(v: &mut Vec<Catch>)
    ensures
        catch_list(final(v)@) == cleaned_catches(catch_list(old(v)@)),
    decreases *old(v),
{
    let mut i: usize = 0;
    while i < v.len()
        invariant
            i <= v.len(),
            v.len() == old(v).len(),
            forall|j: int| 0 <= j < i ==> (#[trigger] v@[j])@ == cleaned_catch(old(v)@[j]@),
            forall|j: int| i <= j < v.len() ==> #[trigger] v@[j] == old(v)@[j],
        decreases v.len() - i,
    {
        assert(decreases_to!(*old(v) => v@[i as int]));
        cleanup_catch(&mut v[i]);
        i += 1;
    }
    assert(catch_list(v@) =~= cleaned_catches(catch_list(old(v)@)));
}

/// Replaces a block of a single block by that block.
fn unwrap_block(s: &mut Stmt)
    ensures
        final(s)@ == unwrapped(old(s)@),
{
    let nested = match s {
        Stmt::Block(v) => {
            assert(stmts(v@).len() == v@.len());
            assert(v@.len() == 1 ==> stmts(v@)[0] == v@[0]@);
            v.len() == 1 && matches!(&v[0], Stmt::Block(_))
        },
        _ => false,
    };
    if nested {
        if let Stmt::Block(mut v) = take_stmt(s) {
            if let Some(x) = v.pop() {
                *s = x;
            }
        }
    }
}

// ---------------------------------------------------------------------
// Laws.

/// Some statement of `v` is a block.
pub open spec fn block_in(v: Seq<StmtV>) -> bool {
    exists|i: int| 0 <= i < v.len() && #[trigger] v[i] is Block
}

/// Somewhere in `s` a block stands directly inside a block, or a `try` catches
/// nothing.
pub open spec fn untidy(s: StmtV) -> bool
    decreases s,
{
    match s {
        StmtV::Block(items) => block_in(items) || untidy_seq(items),
        StmtV::If { then_stmt, else_stmt, .. } => untidy(*then_stmt) || untidy_opt(else_stmt),
        StmtV::While { body, .. } => untidy(*body),
        StmtV::DoWhile { body, .. } => untidy(*body),
        StmtV::For { init, body, .. } => untidy_seq(init) || untidy(*body),
        StmtV::ForEach { body, .. } => untidy(*body),
        StmtV::Switch { cases, default, .. } => untidy_cases(cases) || untidy_opt(default),
        StmtV::Try { body, catches, finally } => (catches.len() == 0 && finally is None)
            || untidy(*body) || untidy_catches(catches) || untidy_opt(finally),
        StmtV::TryWithResources { resources, body, catches, finally } => untidy_seq(resources)
            || untidy(*body) || untidy_catches(catches) || untidy_opt(finally),
        StmtV::Synchronized { body, .. } => untidy(*body),
        StmtV::Labeled { body, .. } => untidy(*body),
        _ => false,
    }
}

/// [`untidy`] where there is a value.
pub open spec fn untidy_opt(o: Option<Box<StmtV>>) -> bool
    decreases o,
{
    match o {
        Some(x) => untidy(*x),
        None => false,
    }
}

/// [`untidy`] over a list.
pub open spec fn untidy_seq(l: Seq<StmtV>) -> bool
    decreases l,
{
    exists|i: int| 0 <= i < l.len() && untidy(#[trigger] l[i])
}

/// [`untidy`] inside a switch arm.
pub open spec fn untidy_case(c: CaseGroupV) -> bool
    decreases c,
{
    untidy_seq(c.body)
}

/// [`untidy`] over a list.
pub open spec fn untidy_cases(l: Seq<CaseGroupV>) -> bool
    decreases l,
{
    exists|i: int| 0 <= i < l.len() && untidy_case(#[trigger] l[i])
}

/// [`untidy`] inside a catch clause.
pub open spec fn untidy_catch(c: CatchV) -> bool
    decreases c,
{
    untidy(*c.body)
}

/// [`untidy`] over a list.
pub open spec fn untidy_catches(l: Seq<CatchV>) -> bool
    decreases l,
{
    exists|i: int| 0 <= i < l.len() && untidy_catch(#[trigger] l[i])
}

/// After cleanup no block stands directly inside a block, and every `try` catches
/// something or has a `finally`.
pub proof fn law_cleanup_tidies(s: StmtV)
    ensures
        !untidy(cleaned(s)),
    decreases s,
{
    match s {
        StmtV::Block(items) => {
            lemma_tidies_seq(items);
            lemma_flat_tidy(cleaned_seq(items));
            lemma_nonempty_tidy(flat(cleaned_seq(items)));
        },
        StmtV::If { then_stmt, else_stmt, .. } => {
            law_cleanup_tidies(*then_stmt);
            lemma_tidies_opt(else_stmt);
        },
        StmtV::While { body, .. } => { law_cleanup_tidies(*body);  },
        StmtV::DoWhile { body, .. } => { law_cleanup_tidies(*body);  },
        StmtV::For { init, body, .. } => { lemma_tidies_seq(init); law_cleanup_tidies(*body);  },
        StmtV::ForEach { body, .. } => { law_cleanup_tidies(*body);  },
        StmtV::Switch { cases, default, .. } => {
            lemma_tidies_cases(cases);
            lemma_tidies_opt(default);
        },
        StmtV::Try { body, catches, finally } => {
            law_cleanup_tidies(*body);
            lemma_tidies_catches(catches);
            lemma_tidies_opt(finally);
            assert(cleaned_catches(catches).len() == catches.len());
        },
        StmtV::TryWithResources { resources, body, catches, finally } => {
            lemma_tidies_seq(resources);
            law_cleanup_tidies(*body);
            lemma_tidies_catches(catches);
            lemma_tidies_opt(finally);
        },
        StmtV::Synchronized { body, .. } => { law_cleanup_tidies(*body);  },
        StmtV::Labeled { body, .. } => { law_cleanup_tidies(*body);  },
        _ => {},
    }
}

/// [`law_cleanup_tidies`] where there is a statement.
proof fn lemma_tidies_opt(o: Option<Box<StmtV>>)
    ensures
        !untidy_opt(cleaned_opt(o)),
    decreases o,
{
    if let Some(x) = o {
        law_cleanup_tidies(*x);
    }
}

/// [`law_cleanup_tidies`] over a list.
proof fn lemma_tidies_seq(v: Seq<StmtV>)
    ensures
        !untidy_seq(cleaned_seq(v)),
    decreases v,
{
    assert forall|i: int| 0 <= i < v.len() implies !untidy(#[trigger] cleaned_seq(v)[i]) by {
        law_cleanup_tidies(v[i]);
    }
}

/// [`law_cleanup_tidies`] over switch arms.
proof fn lemma_tidies_cases(v: Seq<CaseGroupV>)
    ensures
        !untidy_cases(cleaned_cases(v)),
    decreases v,
{
    assert forall|i: int| 0 <= i < v.len() implies !untidy_case(#[trigger] cleaned_cases(v)[i]) by {
        lemma_tidies_case(v[i]);
    }
}

/// [`law_cleanup_tidies`] inside a switch arm.
proof fn lemma_tidies_case(c: CaseGroupV)
    ensures
        !untidy_case(cleaned_case(c)),
    decreases c,
{
    lemma_tidies_seq(c.body);
}

/// [`law_cleanup_tidies`] over catch clauses.
proof fn lemma_tidies_catches(v: Seq<CatchV>)
    ensures
        !untidy_catches(cleaned_catches(v)),
    decreases v,
{
    assert forall|i: int|
        0 <= i < v.len() implies !untidy_catch(#[trigger] cleaned_catches(v)[i]) by {
        lemma_tidies_catch(v[i]);
    }
}

/// [`law_cleanup_tidies`] inside a catch clause.
proof fn lemma_tidies_catch(c: CatchV)
    ensures
        !untidy_catch(cleaned_catch(c)),
    decreases c,
{
    law_cleanup_tidies(*c.body);
}

/// The statements of tidy blocks and statements are tidy and no blocks.
proof fn lemma_flat_tidy(v: Seq<StmtV>)
    requires
        !untidy_seq(v),
    ensures
        !untidy_seq(flat(v)),
        !block_in(flat(v)),
    decreases v.len(),
{
    if v.len() > 0 {
        assert forall|i: int| 0 <= i < v.len() - 1 implies !untidy(#[trigger] v.drop_last()[i]) by {
            assert(!untidy(v[i]));
        }
        lemma_flat_tidy(v.drop_last());
        let front = flat(v.drop_last());
        let back = flat_one(v.last());
        assert(!untidy(v[v.len() - 1]));
        assert(!untidy_seq(back) && !block_in(back)) by {
            if !(v.last() is Block) {
                assert(back =~= seq![v.last()]);
            }
        }
        assert forall|i: int|
            0 <= i < flat(v).len() implies !untidy(#[trigger] flat(v)[i]) && !(flat(
            v,
        )[i] is Block) by {
            if i < front.len() {
                assert(!untidy(front[i]) && !(front[i] is Block));
            } else {
                assert(!untidy(back[i - front.len()]) && !(back[i - front.len()] is Block));
            }
        }
    }
}

/// Dropping empty blocks keeps a list tidy.
proof fn lemma_nonempty_tidy(v: Seq<StmtV>)
    requires
        !untidy_seq(v),
        !block_in(v),
    ensures
        nonempty(v) == v,
    decreases v.len(),
{
    if v.len() > 0 {
        assert forall|i: int| 0 <= i < v.len() - 1 implies !untidy(#[trigger] v.drop_last()[i])
            && !(v.drop_last()[i] is Block) by {
            assert(!untidy(v[i]) && !(v[i] is Block));
        }
        lemma_nonempty_tidy(v.drop_last());
        assert(!(v[v.len() - 1] is Block));
        assert(v =~= v.drop_last() + seq![v.last()]);
    } else {
        assert(v =~= seq![]);
    }
}

/// A list without blocks is flat already.
proof fn lemma_flat_flat(v: Seq<StmtV>)
    requires
        !block_in(v),
    ensures
        flat(v) == v,
    decreases v.len(),
{
    if v.len() > 0 {
        assert forall|i: int|
            0 <= i < v.len() - 1 implies !(#[trigger] v.drop_last()[i] is Block) by {
            assert(!(v[i] is Block));
        }
        lemma_flat_flat(v.drop_last());
        assert(!(v[v.len() - 1] is Block));
        assert(v =~= v.drop_last() + seq![v.last()]);
    } else {
        assert(v =~= seq![]);
    }
}

/// Cleanup leaves a tidy statement as it is.
proof fn lemma_tidy_stays(s: StmtV)
    requires
        !untidy(s),
    ensures
        cleaned(s) == s,
    decreases s,
{
    match s {
        StmtV::Block(items) => {
            lemma_tidy_stays_seq(items);
            lemma_flat_flat(items);
            lemma_nonempty_tidy(items);
            assert(items.len() == 1 ==> !(items[0] is Block));
        },
        StmtV::If { then_stmt, else_stmt, .. } => {
            lemma_tidy_stays(*then_stmt);
            lemma_tidy_stays_opt(else_stmt);
        },
        StmtV::While { body, .. } => { lemma_tidy_stays(*body);  },
        StmtV::DoWhile { body, .. } => { lemma_tidy_stays(*body);  },
        StmtV::For { init, body, .. } => { lemma_tidy_stays_seq(init); lemma_tidy_stays(*body);  },
        StmtV::ForEach { body, .. } => { lemma_tidy_stays(*body);  },
        StmtV::Switch { cases, default, .. } => {
            lemma_tidy_stays_cases(cases);
            lemma_tidy_stays_opt(default);
        },
        StmtV::Try { body, catches, finally } => {
            lemma_tidy_stays(*body);
            lemma_tidy_stays_catches(catches);
            lemma_tidy_stays_opt(finally);
        },
        StmtV::TryWithResources { resources, body, catches, finally } => {
            lemma_tidy_stays_seq(resources);
            lemma_tidy_stays(*body);
            lemma_tidy_stays_catches(catches);
            lemma_tidy_stays_opt(finally);
        },
        StmtV::Synchronized { body, .. } => { lemma_tidy_stays(*body);  },
        StmtV::Labeled { body, .. } => { lemma_tidy_stays(*body);  },
        _ => {},
    }
}

/// [`lemma_tidy_stays`] where there is a statement.
proof fn lemma_tidy_stays_opt(o: Option<Box<StmtV>>)
    requires
        !untidy_opt(o),
    ensures
        cleaned_opt(o) == o,
    decreases o,
{
    if let Some(x) = o {
        lemma_tidy_stays(*x);
    }
}

/// [`lemma_tidy_stays`] over a list.
proof fn lemma_tidy_stays_seq(v: Seq<StmtV>)
    requires
        !untidy_seq(v),
    ensures
        cleaned_seq(v) == v,
    decreases v,
{
    assert forall|i: int| 0 <= i < v.len() implies cleaned_seq(v)[i] == #[trigger] v[i] by {
        assert(!untidy(v[i]));
        lemma_tidy_stays(v[i]);
    }
    assert(cleaned_seq(v) =~= v);
}

/// [`lemma_tidy_stays`] over switch arms.
proof fn lemma_tidy_stays_cases(v: Seq<CaseGroupV>)
    requires
        !untidy_cases(v),
    ensures
        cleaned_cases(v) == v,
    decreases v,
{
    assert forall|i: int| 0 <= i < v.len() implies cleaned_cases(v)[i] == #[trigger] v[i] by {
        assert(!untidy_case(v[i]));
        lemma_tidy_stays_case(v[i]);
    }
    assert(cleaned_cases(v) =~= v);
}

/// [`lemma_tidy_stays`] inside a switch arm.
proof fn lemma_tidy_stays_case(c: CaseGroupV)
    requires
        !untidy_case(c),
    ensures
        cleaned_case(c) == c,
    decreases c,
{
    lemma_tidy_stays_seq(c.body);
}

/// [`lemma_tidy_stays`] over catch clauses.
proof fn lemma_tidy_stays_catches(v: Seq<CatchV>)
    requires
        !untidy_catches(v),
    ensures
        cleaned_catches(v) == v,
    decreases v,
{
    assert forall|i: int| 0 <= i < v.len() implies cleaned_catches(v)[i] == #[trigger] v[i] by {
        assert(!untidy_catch(v[i]));
        lemma_tidy_stays_catch(v[i]);
    }
    assert(cleaned_catches(v) =~= v);
}

/// [`lemma_tidy_stays`] inside a catch clause.
proof fn lemma_tidy_stays_catch(c: CatchV)
    requires
        !untidy_catch(c),
    ensures
        cleaned_catch(c) == c,
    decreases c,
{
    lemma_tidy_stays(*c.body);
}

/// A second cleanup changes nothing.
pub proof fn law_cleanup_idempotent(s: StmtV)
    ensures
        cleaned(cleaned(s)) == cleaned(s),
{
    law_cleanup_tidies(s);
    lemma_tidy_stays(cleaned(s));
}

} // verus!
