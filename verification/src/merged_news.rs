//! Constructor calls that reached their `new` through a merged stack variable.
use crate::classes::{PoolClass, PoolClassV};
use crate::expr::{as_local, clone_exprs, exprs, local_var, AssignOp, Expr, ExprV};
use crate::stmt::{
    case_groups, catch_list, is_empty_block, opt_stmt, stmts, take_stmt, CaseGroup, CaseGroupV,
    Catch, CatchV, Stmt, StmtV,
};
use crate::types::{str_eq, strs, JType, JTypeV, TypeRef, TypeRefV};
use vstd::prelude::*;

verus! {

/// A variable and the class of the bare `new` that it receives.
pub type RawNew = (u32, String);

/// Model of [`RawNew`].
pub type RawNewV = (u32, Seq<char>);

/// Model of a list of bare `new`s.
pub open spec fn news_view(v: Seq<RawNew>) -> Seq<RawNewV> {
    Seq::new(v.len(), |i: int| (v[i].0, v[i].1@))
}

/// A constructor call of another class than `pc` on a local: variable, its type,
/// class and arguments.
pub open spec fn merged_init(e: ExprV, pc: PoolClassV) -> Option<
    (u32, TypeRefV, Seq<char>, Seq<ExprV>),
> {
    match e {
        ExprV::Method { name, cls, owner, args, .. } => if name == "<init>"@ && cls
            != pc.internal_name {
            match owner {
                Some(x) => match *x {
                    ExprV::Local { var, ty } => Some((var, ty, cls, args)),
                    _ => None,
                },
                None => None,
            }
        } else {
            None
        },
        _ => None,
    }
}

/// The class of the constructor call that `e` is, as a list.
pub open spec fn expr_init(e: ExprV, pc: PoolClassV) -> Seq<Seq<char>> {
    match merged_init(e, pc) {
        Some((_, _, cls, _)) => seq![cls],
        None => seq![],
    }
}

/// The variable that an assignment statement assigns, where it is a local.
pub open spec fn assigned_local(s: StmtV) -> Option<u32> {
    match s {
        StmtV::ExprStmt(ExprV::Assign { target, .. }) => as_local(*target),
        _ => None,
    }
}

/// The bare `new` of a class among `inits` that `s` stores.
pub open spec fn raw_new(s: StmtV, inits: Seq<Seq<char>>) -> Option<RawNewV> {
    match s {
        StmtV::ExprStmt(ExprV::Assign { target, value, .. }) => match *value {
            ExprV::New { cls, raw, .. } => if raw && inits.contains(cls) {
                match as_local(*target) {
                    Some(var) => Some((var, cls)),
                    None => None,
                }
            } else {
                None
            },
            _ => None,
        },
        _ => None,
    }
}

/// The bare `new`s that statements of `v` store, in order of first occurrence.
pub open spec fn raw_news(v: Seq<StmtV>, inits: Seq<Seq<char>>) -> Seq<RawNewV>
    decreases v.len(),
{
    if v.len() == 0 {
        seq![]
    } else {
        let front = raw_news(v.drop_last(), inits);
        match raw_new(v.last(), inits) {
            Some(x) => if front.contains(x) {
                front
            } else {
                front.push(x)
            },
            None => front,
        }
    }
}

/// Plain assignment of `value` to local `var`.
pub open spec fn store(var: u32, ty: TypeRefV, value: ExprV) -> StmtV {
    StmtV::ExprStmt(
        ExprV::Assign {
            target: Box::new(ExprV::Local { var, ty }),
            op: AssignOp::Plain,
            value: Box::new(value),
        },
    )
}

/// Some bare `new` is stored in `v`.
pub open spec fn receives_new(dead: Seq<RawNewV>, v: u32) -> bool {
    exists|i: int| 0 <= i < dead.len() && (#[trigger] dead[i]).0 == v
}

/// Copies of `var` into each other variable that receives a bare `new` of class `cls`.
pub open spec fn copies(dead: Seq<RawNewV>, var: u32, ty: TypeRefV, cls: Seq<char>) -> Seq<StmtV>
    decreases dead.len(),
{
    if dead.len() == 0 {
        seq![]
    } else {
        copies(dead.drop_last(), var, ty, cls) + if dead.last().0 == var || dead.last().1 != cls {
            seq![]
        } else {
            seq![store(dead.last().0, ty, ExprV::Local { var, ty })]
        }
    }
}

/// What replaces a merged constructor call: a `new` with its arguments stored in the
/// variable, then the copies.
pub open spec fn folded_init(s: StmtV, pc: PoolClassV, dead: Seq<RawNewV>) -> Option<StmtV> {
    match s {
        StmtV::ExprStmt(e) => match merged_init(e, pc) {
            Some((var, ty, cls, args)) => {
                let value = ExprV::New {
                    cls,
                    ty: TypeRefV::J(JTypeV::Object(cls)),
                    args,
                    raw: false,
                };
                Some(StmtV::Block(seq![store(var, ty, value)] + copies(dead, var, ty, cls)))
            },
            None => None,
        },
        _ => None,
    }
}

/// What a statement of a block becomes: nothing for an assignment to a variable
/// that receives a bare `new`, or for what ends up empty.
pub open spec fn news_folded_item(
    s: StmtV,
    inits: Seq<Seq<char>>,
    pc: PoolClassV,
    dead: Seq<RawNewV>,
) -> Seq<StmtV>
    decreases s, 1nat,
{
    if assigned_local(s) matches Some(v) && receives_new(dead, v) {
        seq![]
    } else {
        let r = match folded_init(s, pc, dead) {
            Some(f) => f,
            None => news_folded(s, inits, pc),
        };
        if is_empty_block(r) {
            seq![]
        } else {
            seq![r]
        }
    }
}

/// The classes of the merged constructor calls in `s`, in order.
pub open spec fn found_inits(s: StmtV, pc: PoolClassV) -> Seq<Seq<char>>
    decreases s,
{
    match s {
        StmtV::Block(items) => found_inits_seq(items, pc),
        StmtV::ExprStmt(e) => expr_init(e, pc),
        StmtV::If { then_stmt, else_stmt, .. } => found_inits(*then_stmt, pc)
            + found_inits_opt(else_stmt, pc),
        StmtV::While { body, .. } => found_inits(*body, pc),
        StmtV::DoWhile { body, .. } => found_inits(*body, pc),
        StmtV::For { init, body, .. } => found_inits_seq(init, pc) + found_inits(*body, pc),
        StmtV::ForEach { body, .. } => found_inits(*body, pc),
        StmtV::Switch { cases, default, .. } => found_inits_cases(cases, pc)
            + found_inits_opt(default, pc),
        StmtV::Try { body, catches, finally } => found_inits(*body, pc)
            + found_inits_catches(catches, pc) + found_inits_opt(finally, pc),
        StmtV::TryWithResources { resources, body, catches, finally } => found_inits_seq(
            resources,
            pc,
        )
            + found_inits(*body, pc) + found_inits_catches(catches, pc)
            + found_inits_opt(finally, pc),
        StmtV::Synchronized { body, .. } => found_inits(*body, pc),
        StmtV::Labeled { body, .. } => found_inits(*body, pc),
        _ => seq![],
    }
}

/// [`found_inits`] where there is a value.
pub open spec fn found_inits_opt(o: Option<Box<StmtV>>, pc: PoolClassV) -> Seq<Seq<char>>
    decreases o,
{
    match o {
        Some(x) => found_inits(*x, pc),
        None => seq![],
    }
}

/// [`found_inits`] over a list.
pub open spec fn found_inits_seq(l: Seq<StmtV>, pc: PoolClassV) -> Seq<Seq<char>>
    decreases l,
{
    if l.len() == 0 {
        seq![]
    } else {
        found_inits_seq(l.drop_last(), pc) + found_inits(l.last(), pc)
    }
}

/// [`found_inits`] inside a switch arm.
pub open spec fn found_inits_case(c: CaseGroupV, pc: PoolClassV) -> Seq<Seq<char>>
    decreases c,
{
    found_inits_seq(c.body, pc)
}

/// [`found_inits`] over a list.
pub open spec fn found_inits_cases(l: Seq<CaseGroupV>, pc: PoolClassV) -> Seq<Seq<char>>
    decreases l,
{
    if l.len() == 0 {
        seq![]
    } else {
        found_inits_cases(l.drop_last(), pc) + found_inits_case(l.last(), pc)
    }
}

/// [`found_inits`] inside a catch clause.
pub open spec fn found_inits_catch(c: CatchV, pc: PoolClassV) -> Seq<Seq<char>>
    decreases c,
{
    found_inits(*c.body, pc)
}

/// [`found_inits`] over a list.
pub open spec fn found_inits_catches(l: Seq<CatchV>, pc: PoolClassV) -> Seq<Seq<char>>
    decreases l,
{
    if l.len() == 0 {
        seq![]
    } else {
        found_inits_catches(l.drop_last(), pc) + found_inits_catch(l.last(), pc)
    }
}

/// Adds the classes of the merged constructor calls in `s` to `out`, in order.
pub fn find_inits(s: &Stmt, pc: &PoolClass, out: &mut Vec<String>)
    ensures
        strs(final(out)@) == strs(old(out)@) + found_inits(s@, pc@),
    decreases s,
{
    match s {
        Stmt::Block(items) => { find_inits_vec(items, pc, out); },
        Stmt::ExprStmt(e) => find_expr_init(e, pc, out),
        Stmt::If { then_stmt, else_stmt, .. } => {
            find_inits(then_stmt, pc, out);
            find_inits_opt(else_stmt, pc, out);
            assert(strs(out@) =~= strs(old(out)@) + found_inits(s@, pc@));
        },
        Stmt::While { body, .. } => { find_inits(body, pc, out); },
        Stmt::DoWhile { body, .. } => { find_inits(body, pc, out); },
        Stmt::For { init, body, .. } => {
            find_inits_vec(init, pc, out);
            find_inits(body, pc, out);
            assert(strs(out@) =~= strs(old(out)@) + found_inits(s@, pc@));
        },
        Stmt::ForEach { body, .. } => { find_inits(body, pc, out); },
        Stmt::Switch { cases, default, .. } => {
            find_inits_cases(cases, pc, out);
            find_inits_opt(default, pc, out);
            assert(strs(out@) =~= strs(old(out)@) + found_inits(s@, pc@));
        },
        Stmt::Try { body, catches, finally } => {
            find_inits(body, pc, out);
            find_inits_catches(catches, pc, out);
            find_inits_opt(finally, pc, out);
            assert(strs(out@) =~= strs(old(out)@) + found_inits(s@, pc@));
        },
        Stmt::TryWithResources { resources, body, catches, finally } => {
            find_inits_vec(resources, pc, out);
            find_inits(body, pc, out);
            find_inits_catches(catches, pc, out);
            find_inits_opt(finally, pc, out);
            assert(strs(out@) =~= strs(old(out)@) + found_inits(s@, pc@));
        },
        Stmt::Synchronized { body, .. } => { find_inits(body, pc, out); },
        Stmt::Labeled { body, .. } => { find_inits(body, pc, out); },
        _ => {},
    }
}

/// `find_inits` where there is a value.
pub fn find_inits_opt(o: &Option<Box<Stmt>>, pc: &PoolClass, out: &mut Vec<String>)
    ensures
        strs(final(out)@) == strs(old(out)@) + found_inits_opt(opt_stmt(*o), pc@),
    decreases o,
{
    if let Some(x) = o {
        find_inits(x, pc, out);
    }
}

/// `find_inits` over a list.
#[verifier::loop_isolation(false)]
pub fn find_inits_vec(l: &Vec<Stmt>, pc: &PoolClass, out: &mut Vec<String>)
    ensures
        strs(final(out)@) == strs(old(out)@) + found_inits_seq(stmts(l@), pc@),
    decreases l,
{
    let ghost all = stmts(l@);
    let mut i: usize = 0;
    while i < l.len()
        invariant
            i <= l.len(),
            strs(out@) == strs(old(out)@) + found_inits_seq(all.take(i as int), pc@),
        decreases l.len() - i,
    {
        assert(decreases_to!(l => l@[i as int]));
        assert(all.take(i + 1).drop_last() =~= all.take(i as int));
        find_inits(&l[i], pc, out);
        i += 1;
        assert(
            strs(out@) =~= strs(old(out)@) + found_inits_seq(all.take(i as int), pc@)
        );
    }
    assert(all.take(i as int) =~= all);
}

/// `find_inits` inside a switch arm.
pub fn find_inits_case(c: &CaseGroup, pc: &PoolClass, out: &mut Vec<String>)
    ensures
        strs(final(out)@) == strs(old(out)@) + found_inits_case(c@, pc@),
    decreases c,
{
    find_inits_vec(&c.body, pc, out);
}

/// `find_inits` over a list.
#[verifier::loop_isolation(false)]
pub fn find_inits_cases(l: &Vec<CaseGroup>, pc: &PoolClass, out: &mut Vec<String>)
    ensures
        strs(final(out)@) == strs(old(out)@) + found_inits_cases(case_groups(l@), pc@),
    decreases l,
{
    let ghost all = case_groups(l@);
    let mut i: usize = 0;
    while i < l.len()
        invariant
            i <= l.len(),
            strs(out@) == strs(old(out)@) + found_inits_cases(all.take(i as int), pc@),
        decreases l.len() - i,
    {
        assert(decreases_to!(l => l@[i as int]));
        assert(all.take(i + 1).drop_last() =~= all.take(i as int));
        find_inits_case(&l[i], pc, out);
        i += 1;
        assert(
            strs(out@) =~= strs(old(out)@) + found_inits_cases(all.take(i as int), pc@)
        );
    }
    assert(all.take(i as int) =~= all);
}

/// `find_inits` inside a catch clause.
pub fn find_inits_catch(c: &Catch, pc: &PoolClass, out: &mut Vec<String>)
    ensures
        strs(final(out)@) == strs(old(out)@) + found_inits_catch(c@, pc@),
    decreases c,
{
    find_inits(&c.body, pc, out);
}

/// `find_inits` over a list.
#[verifier::loop_isolation(false)]
pub fn find_inits_catches(l: &Vec<Catch>, pc: &PoolClass, out: &mut Vec<String>)
    ensures
        strs(final(out)@) == strs(old(out)@) + found_inits_catches(catch_list(l@), pc@),
    decreases l,
{
    let ghost all = catch_list(l@);
    let mut i: usize = 0;
    while i < l.len()
        invariant
            i <= l.len(),
            strs(out@) == strs(old(out)@)
                + found_inits_catches(all.take(i as int), pc@),
        decreases l.len() - i,
    {
        assert(decreases_to!(l => l@[i as int]));
        assert(all.take(i + 1).drop_last() =~= all.take(i as int));
        find_inits_catch(&l[i], pc, out);
        i += 1;
        assert(
            strs(out@) =~= strs(old(out)@)
                + found_inits_catches(all.take(i as int), pc@)
        );
    }
    assert(all.take(i as int) =~= all);
}

/// The statements of a block with their `new`s completed.
pub open spec fn news_folded_items(
    v: Seq<StmtV>,
    inits: Seq<Seq<char>>,
    pc: PoolClassV,
    dead: Seq<RawNewV>,
) -> Seq<StmtV>
    decreases v, 0nat,
{
    if v.len() == 0 {
        seq![]
    } else {
        news_folded_items(v.drop_last(), inits, pc, dead)
            + news_folded_item(v.last(), inits, pc, dead)
    }
}

/// `s` with the arguments of merged constructor calls folded into their `new`s.
pub open spec fn news_folded(s: StmtV, inits: Seq<Seq<char>>, pc: PoolClassV) -> StmtV
    decreases s, 0nat,
{
    match s {
        StmtV::Block(items) => StmtV::Block(
            news_folded_items(items, inits, pc, raw_news(items, inits))
        ),
        StmtV::If { cond, then_stmt, else_stmt } => StmtV::If {
            cond,
            then_stmt: Box::new(news_folded(*then_stmt, inits, pc)),
            else_stmt: news_folded_opt(else_stmt, inits, pc),
        },
        StmtV::While { cond, body } => StmtV::While {
            cond,
            body: Box::new(news_folded(*body, inits, pc)),
        },
        StmtV::DoWhile { body, cond } => StmtV::DoWhile {
            body: Box::new(news_folded(*body, inits, pc)),
            cond,
        },
        StmtV::For { init, cond, update, body } => StmtV::For {
            init: news_folded_seq(init, inits, pc),
            cond,
            update,
            body: Box::new(news_folded(*body, inits, pc)),
        },
        StmtV::ForEach { var, iterable, is_array, body } => StmtV::ForEach {
            var,
            iterable,
            is_array,
            body: Box::new(news_folded(*body, inits, pc)),
        },
        StmtV::Switch { selector, cases, default, on_string } => StmtV::Switch {
            selector,
            cases: news_folded_cases(cases, inits, pc),
            default: news_folded_opt(default, inits, pc),
            on_string,
        },
        StmtV::Try { body, catches, finally } => StmtV::Try {
            body: Box::new(news_folded(*body, inits, pc)),
            catches: news_folded_catches(catches, inits, pc),
            finally: news_folded_opt(finally, inits, pc),
        },
        StmtV::TryWithResources { resources, body, catches, finally } => StmtV::TryWithResources {
            resources: news_folded_seq(resources, inits, pc),
            body: Box::new(news_folded(*body, inits, pc)),
            catches: news_folded_catches(catches, inits, pc),
            finally: news_folded_opt(finally, inits, pc),
        },
        StmtV::Synchronized { lock, body } => StmtV::Synchronized {
            lock,
            body: Box::new(news_folded(*body, inits, pc)),
        },
        StmtV::Labeled { label, body } => StmtV::Labeled {
            label,
            body: Box::new(news_folded(*body, inits, pc)),
        },
        _ => s,
    }
}

/// [`news_folded`] where there is a value.
pub open spec fn news_folded_opt(
    o: Option<Box<StmtV>>,
    inits: Seq<Seq<char>>,
    pc: PoolClassV,
) -> Option<Box<StmtV>>
    decreases o, 0nat,
{
    match o {
        Some(x) => Some(Box::new(news_folded(*x, inits, pc))),
        None => None,
    }
}

/// [`news_folded`] over a list.
pub open spec fn news_folded_seq(v: Seq<StmtV>, inits: Seq<Seq<char>>, pc: PoolClassV) -> Seq<StmtV>
    decreases v, 0nat,
{
    Seq::new(
        v.len(),
        |i: int| if 0 <= i < v.len() { news_folded(v[i], inits, pc) } else { arbitrary() },
    )
}

/// [`news_folded`] inside a switch arm.
pub open spec fn news_folded_case(
    c: CaseGroupV,
    inits: Seq<Seq<char>>,
    pc: PoolClassV,
) -> CaseGroupV
    decreases c, 0nat,
{
    CaseGroupV { body: news_folded_seq(c.body, inits, pc), ..c }
}

/// [`news_folded`] over a list.
pub open spec fn news_folded_cases(
    v: Seq<CaseGroupV>,
    inits: Seq<Seq<char>>,
    pc: PoolClassV,
) -> Seq<CaseGroupV>
    decreases v, 0nat,
{
    Seq::new(
        v.len(),
        |i: int| if 0 <= i < v.len() { news_folded_case(v[i], inits, pc) } else { arbitrary() },
    )
}

/// [`news_folded`] inside a catch clause.
pub open spec fn news_folded_catch(c: CatchV, inits: Seq<Seq<char>>, pc: PoolClassV) -> CatchV
    decreases c, 0nat,
{
    CatchV { body: Box::new(news_folded(*c.body, inits, pc)), ..c }
}

/// [`news_folded`] over a list.
pub open spec fn news_folded_catches(
    v: Seq<CatchV>,
    inits: Seq<Seq<char>>,
    pc: PoolClassV,
) -> Seq<CatchV>
    decreases v, 0nat,
{
    Seq::new(
        v.len(),
        |i: int| if 0 <= i < v.len() { news_folded_catch(v[i], inits, pc) } else { arbitrary() },
    )
}

/// Completes bare `new`s in every block inside `s`.
pub fn rewrite_inits(s: &mut Stmt, inits: &Vec<String>, pc: &PoolClass)
    ensures
        final(s)@ == news_folded(old(s)@, strs(inits@), pc@),
    decreases *old(s), 0nat,
{
    match s {
        Stmt::Block(items) => {
            let dead = dead_news(items, inits);
            rewrite_items(items, inits, pc, &dead);
        },
        Stmt::If { then_stmt, else_stmt, .. } => {
            rewrite_inits(then_stmt, inits, pc);
            rewrite_inits_opt(else_stmt, inits, pc);
        },
        Stmt::While { body, .. } => { rewrite_inits(body, inits, pc); },
        Stmt::DoWhile { body, .. } => { rewrite_inits(body, inits, pc); },
        Stmt::For { init, body, .. } => {
            rewrite_inits_vec(init, inits, pc);
            rewrite_inits(body, inits, pc);
        },
        Stmt::ForEach { body, .. } => { rewrite_inits(body, inits, pc); },
        Stmt::Switch { cases, default, .. } => {
            rewrite_inits_cases(cases, inits, pc);
            rewrite_inits_opt(default, inits, pc);
        },
        Stmt::Try { body, catches, finally } => {
            rewrite_inits(body, inits, pc);
            rewrite_inits_catches(catches, inits, pc);
            rewrite_inits_opt(finally, inits, pc);
        },
        Stmt::TryWithResources { resources, body, catches, finally } => {
            rewrite_inits_vec(resources, inits, pc);
            rewrite_inits(body, inits, pc);
            rewrite_inits_catches(catches, inits, pc);
            rewrite_inits_opt(finally, inits, pc);
        },
        Stmt::Synchronized { body, .. } => { rewrite_inits(body, inits, pc); },
        Stmt::Labeled { body, .. } => { rewrite_inits(body, inits, pc); },
        _ => {},
    }
}

/// `rewrite_inits` where there is a value.
pub fn rewrite_inits_opt(o: &mut Option<Box<Stmt>>, inits: &Vec<String>, pc: &PoolClass)
    ensures
        opt_stmt(*final(o)) == news_folded_opt(opt_stmt(*old(o)), strs(inits@), pc@),
    decreases *old(o), 0nat,
{
    if let Some(x) = o {
        rewrite_inits(x, inits, pc);
    }
}

/// `rewrite_inits` over a list.
#[verifier::loop_isolation(false)]
pub fn rewrite_inits_vec(v: &mut Vec<Stmt>, inits: &Vec<String>, pc: &PoolClass)
    ensures
        stmts(final(v)@) == news_folded_seq(stmts(old(v)@), strs(inits@), pc@),
    decreases *old(v), 0nat,
{
    let mut i: usize = 0;
    while i < v.len()
        invariant
            i <= v.len(),
            v.len() == old(v).len(),
            forall|j: int|
                0 <= j < i
                    ==> (#[trigger] v@[j])@ == news_folded(old(v)@[j]@, strs(inits@), pc@),
            forall|j: int| i <= j < v.len() ==> #[trigger] v@[j] == old(v)@[j],
        decreases v.len() - i,
    {
        assert(decreases_to!(*old(v) => v@[i as int]));
        rewrite_inits(&mut v[i], inits, pc);
        i += 1;
    }
    assert(stmts(v@) =~= news_folded_seq(stmts(old(v)@), strs(inits@), pc@));
}

/// `rewrite_inits` inside a switch arm.
pub fn rewrite_inits_case(c: &mut CaseGroup, inits: &Vec<String>, pc: &PoolClass)
    ensures
        final(c)@ == news_folded_case(old(c)@, strs(inits@), pc@),
    decreases *old(c), 0nat,
{
    rewrite_inits_vec(&mut c.body, inits, pc);
}

/// `rewrite_inits` over a list.
#[verifier::loop_isolation(false)]
pub fn rewrite_inits_cases(v: &mut Vec<CaseGroup>, inits: &Vec<String>, pc: &PoolClass)
    ensures
        case_groups(final(v)@) == news_folded_cases(case_groups(old(v)@), strs(inits@), pc@),
    decreases *old(v), 0nat,
{
    let mut i: usize = 0;
    while i < v.len()
        invariant
            i <= v.len(),
            v.len() == old(v).len(),
            forall|j: int|
                0 <= j < i
                    ==> (#[trigger] v@[j])@ == news_folded_case(
                        old(v)@[j]@,
                        strs(inits@),
                        pc@,
                    ),
            forall|j: int| i <= j < v.len() ==> #[trigger] v@[j] == old(v)@[j],
        decreases v.len() - i,
    {
        assert(decreases_to!(*old(v) => v@[i as int]));
        rewrite_inits_case(&mut v[i], inits, pc);
        i += 1;
    }
    assert(case_groups(v@) =~= news_folded_cases(case_groups(old(v)@), strs(inits@), pc@));
}

/// `rewrite_inits` inside a catch clause.
pub fn rewrite_inits_catch(c: &mut Catch, inits: &Vec<String>, pc: &PoolClass)
    ensures
        final(c)@ == news_folded_catch(old(c)@, strs(inits@), pc@),
    decreases *old(c), 0nat,
{
    rewrite_inits(&mut c.body, inits, pc);
}

/// `rewrite_inits` over a list.
#[verifier::loop_isolation(false)]
pub fn rewrite_inits_catches(v: &mut Vec<Catch>, inits: &Vec<String>, pc: &PoolClass)
    ensures
        catch_list(final(v)@) == news_folded_catches(catch_list(old(v)@), strs(inits@), pc@),
    decreases *old(v), 0nat,
{
    let mut i: usize = 0;
    while i < v.len()
        invariant
            i <= v.len(),
            v.len() == old(v).len(),
            forall|j: int|
                0 <= j < i
                    ==> (#[trigger] v@[j])@ == news_folded_catch(
                        old(v)@[j]@,
                        strs(inits@),
                        pc@,
                    ),
            forall|j: int| i <= j < v.len() ==> #[trigger] v@[j] == old(v)@[j],
        decreases v.len() - i,
    {
        assert(decreases_to!(*old(v) => v@[i as int]));
        rewrite_inits_catch(&mut v[i], inits, pc);
        i += 1;
    }
    assert(catch_list(v@) =~= news_folded_catches(catch_list(old(v)@), strs(inits@), pc@));
}

/// Rewrites the statements of a block.
#[verifier::loop_isolation(false)]
#[verifier::spinoff_prover]
pub fn rewrite_items(v: &mut Vec<Stmt>, inits: &Vec<String>, pc: &PoolClass, dead: &Vec<RawNew>)
    ensures
        stmts(final(v)@) == news_folded_items(stmts(old(v)@), strs(inits@), pc@, news_view(dead@)),
    decreases *old(v), 0nat,
{
    let ghost all = stmts(v@);
    let ghost names = strs(inits@);
    let ghost raw = news_view(dead@);
    let mut out: Vec<Stmt> = Vec::new();
    let mut i: usize = 0;
    assert(all.take(0) =~= seq![]);
    assert(stmts(out@) =~= seq![]);
    while i < v.len()
        invariant
            i <= v.len(),
            v.len() == old(v).len(),
            forall|j: int| i <= j < v.len() ==> #[trigger] v@[j] == old(v)@[j],
            stmts(out@) == news_folded_items(all.take(i as int), names, pc@, raw),
        decreases v.len() - i,
    {
        let ghost before = stmts(out@);
        let ghost item = v@[i as int]@;
        assert(all.take(i + 1).drop_last() =~= all.take(i as int));
        assert(all.take(i + 1).last() == item);
        assert(decreases_to!(*old(v) => v@[i as int]));
        if rewrite_item(&mut v[i], inits, pc, dead) {
            let s = take_stmt(&mut v[i]);
            let ghost x = s@;
            out.push(s);
            assert(stmts(out@) =~= before + seq![x]);
        } else {
            assert(before + seq![] =~= before);
        }
        assert(stmts(out@) == before + news_folded_item(item, names, pc@, raw));
        i += 1;
    }
    assert(all.take(i as int) =~= all);
    *v = out;
}

/// Adds the class of the merged constructor call that `e` is to `out`.
fn find_expr_init(e: &Expr, pc: &PoolClass, out: &mut Vec<String>)
    ensures
        strs(final(out)@) == strs(old(out)@) + expr_init(e@, pc@),
{
    proof {
        reveal_with_fuel(Expr::view, 2);
    }
    if let Some((_, _, cls, _)) = init_call(e, pc) {
        let ghost v = cls@;
        out.push(cls.clone());
        assert(strs(out@) =~= strs(old(out)@).push(v));
    }
    assert(strs(out@) =~= strs(old(out)@) + expr_init(e@, pc@));
}

/// The merged constructor call that `e` is.
fn init_call<'a>(e: &'a Expr, pc: &PoolClass) -> (r: Option<
    (u32, &'a TypeRef, &'a String, &'a Vec<Expr>),
>)
    ensures
        match r {
            Some((v, t, c, a)) => merged_init(e@, pc@) == Some((v, t@, c@, exprs(a@))),
            None => merged_init(e@, pc@) is None,
        },
{
    proof {
        reveal_with_fuel(Expr::view, 3);
    }
    match e {
        Expr::Method { name, cls, owner, args, .. } => {
            if !str_eq(name.as_str(), "<init>") || *cls == pc.internal_name {
                return None;
            }
            match owner {
                Some(x) => match &**x {
                    Expr::Local { var, ty } => Some((*var, ty, cls, args)),
                    _ => None,
                },
                None => None,
            }
        },
        _ => None,
    }
}

/// The variable that an assignment statement assigns.
pub fn assigned(s: &Stmt) -> (r: Option<u32>)
    ensures
        r == assigned_local(s@),
{
    match s {
        Stmt::ExprStmt(Expr::Assign { target, .. }) => local_var(target),
        _ => None,
    }
}

/// Whether some constructor call is of class `cls`.
fn any_class(inits: &Vec<String>, cls: &str) -> (r: bool)
    ensures
        r == strs(inits@).contains(cls@),
{
    let mut i: usize = 0;
    while i < inits.len()
        invariant
            i <= inits.len(),
            forall|j: int| 0 <= j < i ==> #[trigger] strs(inits@)[j] != cls@,
        decreases inits.len() - i,
    {
        assert(strs(inits@)[i as int] == inits@[i as int]@);
        if str_eq(inits[i].as_str(), cls) {
            return true;
        }
        i += 1;
    }
    false
}

/// The bare `new` of a class among `inits` that `s` stores.
fn stored_new(s: &Stmt, inits: &Vec<String>) -> (r: Option<RawNew>)
    ensures
        match r {
            Some(n) => raw_new(s@, strs(inits@)) == Some((n.0, n.1@)),
            None => raw_new(s@, strs(inits@)) is None,
        },
{
    proof {
        reveal_with_fuel(Expr::view, 2);
    }
    match s {
        Stmt::ExprStmt(Expr::Assign { target, value, .. }) => match &**value {
            Expr::New { cls, raw, .. } => if *raw && any_class(inits, cls.as_str()) {
                match local_var(target) {
                    Some(var) => Some((var, cls.clone())),
                    None => None,
                }
            } else {
                None
            },
            _ => None,
        },
        _ => None,
    }
}

/// Whether `n` is among the bare `new`s `l`.
fn has_new(l: &Vec<RawNew>, n: &RawNew) -> (r: bool)
    ensures
        r == news_view(l@).contains((n.0, n.1@)),
{
    let mut i: usize = 0;
    while i < l.len()
        invariant
            i <= l.len(),
            forall|j: int| 0 <= j < i ==> #[trigger] news_view(l@)[j] != (n.0, n.1@),
        decreases l.len() - i,
    {
        assert(news_view(l@)[i as int] == (l@[i as int].0, l@[i as int].1@));
        if l[i].0 == n.0 && str_eq(l[i].1.as_str(), n.1.as_str()) {
            return true;
        }
        i += 1;
    }
    false
}

/// Whether some bare `new` is stored in `v`.
fn is_dead(l: &Vec<RawNew>, v: u32) -> (r: bool)
    ensures
        r == receives_new(news_view(l@), v),
{
    let mut i: usize = 0;
    while i < l.len()
        invariant
            i <= l.len(),
            forall|j: int| 0 <= j < i ==> (#[trigger] news_view(l@)[j]).0 != v,
        decreases l.len() - i,
    {
        assert(news_view(l@)[i as int].0 == l@[i as int].0);
        if l[i].0 == v {
            return true;
        }
        i += 1;
    }
    false
}

/// The bare `new`s that statements of `v` store.
fn dead_news(v: &Vec<Stmt>, inits: &Vec<String>) -> (r: Vec<RawNew>)
    ensures
        news_view(r@) == raw_news(stmts(v@), strs(inits@)),
{
    let ghost all = stmts(v@);
    let mut r: Vec<RawNew> = Vec::new();
    let mut i: usize = 0;
    assert(news_view(r@) =~= raw_news(all.take(0), strs(inits@)));
    while i < v.len()
        invariant
            i <= v.len(),
            all == stmts(v@),
            news_view(r@) == raw_news(all.take(i as int), strs(inits@)),
        decreases v.len() - i,
    {
        assert(all.take(i + 1).drop_last() =~= all.take(i as int));
        if let Some(n) = stored_new(&v[i], inits) {
            if !has_new(&r, &n) {
                let ghost before = news_view(r@);
                let ghost x = (n.0, n.1@);
                r.push(n);
                assert(news_view(r@) =~= before.push(x));
            }
        }
        i += 1;
    }
    assert(all.take(i as int) =~= all);
    r
}

/// Plain assignment of `value` to local `var`.
pub fn make_store(var: u32, ty: &TypeRef, value: Expr) -> (r: Stmt)
    ensures
        r@ == store(var, ty@, value@),
{
    proof {
        reveal_with_fuel(Expr::view, 2);
    }
    Stmt::ExprStmt(
        Expr::Assign {
            target: Box::new(Expr::Local { var, ty: ty.clone() }),
            op: AssignOp::Plain,
            value: Box::new(value),
        },
    )
}

/// What replaces a merged constructor call.
fn fold_init(s: &Stmt, pc: &PoolClass, dead: &Vec<RawNew>) -> (r: Option<Stmt>)
    ensures
        match r {
            Some(f) => folded_init(s@, pc@, news_view(dead@)) == Some(f@),
            None => folded_init(s@, pc@, news_view(dead@)) is None,
        },
{
    let e = match s {
        Stmt::ExprStmt(e) => e,
        _ => return None,
    };
    let (var, ty, cls, args) = match init_call(e, pc) {
        Some(x) => x,
        None => return None,
    };
    let value = Expr::New {
        cls: cls.clone(),
        ty: TypeRef::J(JType::Object(cls.clone())),
        args: clone_exprs(args),
        raw: false,
    };
    let ghost first = store(var, ty@, value@);
    let ghost news = news_view(dead@);
    let mut out: Vec<Stmt> = Vec::new();
    out.push(make_store(var, ty, value));
    assert(stmts(out@) =~= seq![first] + copies(news.take(0), var, ty@, cls@));
    let mut i: usize = 0;
    while i < dead.len()
        invariant
            i <= dead.len(),
            news == news_view(dead@),
            stmts(out@) == seq![first] + copies(news.take(i as int), var, ty@, cls@),
        decreases dead.len() - i,
    {
        let ghost before = stmts(out@);
        assert(news.take(i + 1).drop_last() =~= news.take(i as int));
        assert(news.take(i + 1).last() == (dead@[i as int].0, dead@[i as int].1@));
        if dead[i].0 != var && str_eq(dead[i].1.as_str(), cls.as_str()) {
            let c = make_store(dead[i].0, ty, Expr::Local { var, ty: ty.clone() });
            out.push(c);
            assert(stmts(out@) =~= before.push(c@));
        }
        i += 1;
        assert(stmts(out@) =~= seq![first] + copies(news.take(i as int), var, ty@, cls@));
    }
    assert(news.take(i as int) =~= news);
    Some(Stmt::Block(out))
}

/// Rewrites one statement of a block; `false` where it goes.
fn rewrite_item(
    s: &mut Stmt,
    inits: &Vec<String>,
    pc: &PoolClass,
    dead: &Vec<RawNew>,
) -> (keep: bool)
    ensures
        news_folded_item(old(s)@, strs(inits@), pc@, news_view(dead@)) == if keep {
            seq![final(s)@]
        } else {
            seq![]
        },
    decreases *old(s), 1nat,
{
    if let Some(v) = assigned(s) {
        if is_dead(dead, v) {
            return false;
        }
    }
    match fold_init(s, pc, dead) {
        Some(f) => {
            *s = f;
        },
        None => rewrite_inits(s, inits, pc),
    }
    !s.is_empty_block()
}

/// Outside a constructor: folds the arguments of constructor calls that reached
/// their object through a merged stack variable into the `new` itself.
pub fn fold_merged_new_inits(body: &mut Stmt, pc: &PoolClass)
    ensures
        final(body)@ == if found_inits(old(body)@, pc@).len() == 0 {
            old(body)@
        } else {
            news_folded(old(body)@, found_inits(old(body)@, pc@), pc@)
        },
{
    let mut inits: Vec<String> = Vec::new();
    assert(strs(inits@) =~= seq![]);
    find_inits(body, pc, &mut inits);
    assert(strs(inits@) =~= found_inits(body@, pc@));
    if inits.len() == 0 {
        return ;
    }
    rewrite_inits(body, &inits, pc);
}

} // verus!
