//! Jumps to labels: those that no statement defines, and those that a loop's end
//! makes redundant.
use crate::cleanup::{drop_empty, nonempty};
use crate::expr::{inverse, BinOp, Expr, ExprV, UnOp};
use crate::sizes::{
    case_size, cases_size, catch_size, catches_size, lemma_cases_size, lemma_catches_size,
    lemma_stmts_size, lemma_stmts_size_first, opt_stmt_size, stmt_size, stmts_size,
};
use crate::stmt::{
    case_groups, catch_list, empty_block, no_stmt, opt_stmt, stmts, take_stmt, CaseGroup,
    CaseGroupV, Catch, CatchV, Stmt, StmtV,
};
use crate::text::contains_string;
use crate::types::{opt_str, str_eq, strs};
use std::collections::HashSet;
use vstd::prelude::*;

verus! {

broadcast use vstd::std_specs::hash::group_hash_axioms;

// ---------------------------------------------------------------------
// Negation.

/// The negation of a condition, pushed through `&&`, `||` and comparisons.
pub open spec fn inverted(e: ExprV) -> ExprV
    decreases e,
{
    match e {
        ExprV::Un { op, e: x } => if op is Not {
            *x
        } else {
            ExprV::Un { op: UnOp::Not, e: Box::new(e) }
        },
        ExprV::Bin { op, l, r, ty } => match op {
            BinOp::LogAnd => ExprV::Bin {
                op: BinOp::LogOr,
                l: Box::new(inverted(*l)),
                r: Box::new(inverted(*r)),
                ty,
            },
            BinOp::LogOr => ExprV::Bin {
                op: BinOp::LogAnd,
                l: Box::new(inverted(*l)),
                r: Box::new(inverted(*r)),
                ty,
            },
            _ => match inverse(op) {
                Some(inv) => ExprV::Bin { op: inv, l, r, ty },
                None => ExprV::Un { op: UnOp::Not, e: Box::new(e) },
            },
        },
        _ => ExprV::Un { op: UnOp::Not, e: Box::new(e) },
    }
}

/// The negation of a condition, pushed through `&&`, `||` and comparisons.
pub fn invert(e: Expr) -> (r: Expr)
    ensures
        r@ == inverted(e@),
    decreases e,
{
    match e {
        Expr::Un { op: UnOp::Not, e: x } => *x,
        Expr::Bin { op: BinOp::LogAnd, l, r, ty } => Expr::Bin {
            op: BinOp::LogOr,
            l: Box::new(invert(*l)),
            r: Box::new(invert(*r)),
            ty,
        },
        Expr::Bin { op: BinOp::LogOr, l, r, ty } => Expr::Bin {
            op: BinOp::LogAnd,
            l: Box::new(invert(*l)),
            r: Box::new(invert(*r)),
            ty,
        },
        Expr::Bin { op, l, r, ty } => match op.invert() {
            Some(inv) => Expr::Bin { op: inv, l, r, ty },
            None => {
                let whole = Expr::Bin { op, l, r, ty };
                Expr::Un { op: UnOp::Not, e: Box::new(whole) }
            },
        },
        other => Expr::Un { op: UnOp::Not, e: Box::new(other) },
    }
}

// ---------------------------------------------------------------------
// Definitions.

/// The labels that `s` defines, in order.
pub open spec fn labels_in(s: StmtV) -> Seq<Seq<char>>
    decreases s,
{
    match s {
        StmtV::Block(items) => labels_in_seq(items),
        StmtV::If { then_stmt, else_stmt, .. } => labels_in(*then_stmt) + labels_in_opt(else_stmt),
        StmtV::While { body, .. } => labels_in(*body),
        StmtV::DoWhile { body, .. } => labels_in(*body),
        StmtV::For { init, body, .. } => labels_in_seq(init) + labels_in(*body),
        StmtV::ForEach { body, .. } => labels_in(*body),
        StmtV::Switch { cases, default, .. } => labels_in_cases(cases) + labels_in_opt(default),
        StmtV::Try { body, catches, finally } => labels_in(*body) + labels_in_catches(catches)
            + labels_in_opt(finally),
        StmtV::TryWithResources { resources, body, catches, finally } => labels_in_seq(resources)
            + labels_in(*body) + labels_in_catches(catches) + labels_in_opt(finally),
        StmtV::Synchronized { body, .. } => labels_in(*body),
        StmtV::Labeled { label, body } => seq![label] + labels_in(*body),
        _ => seq![],
    }
}

/// [`labels_in`] where there is a value.
pub open spec fn labels_in_opt(o: Option<Box<StmtV>>) -> Seq<Seq<char>>
    decreases o,
{
    match o {
        Some(x) => labels_in(*x),
        None => seq![],
    }
}

/// [`labels_in`] over a list.
pub open spec fn labels_in_seq(l: Seq<StmtV>) -> Seq<Seq<char>>
    decreases l,
{
    if l.len() == 0 {
        seq![]
    } else {
        labels_in_seq(l.drop_last()) + labels_in(l.last())
    }
}

/// [`labels_in`] inside a switch arm.
pub open spec fn labels_in_case(c: CaseGroupV) -> Seq<Seq<char>>
    decreases c,
{
    labels_in_seq(c.body)
}

/// [`labels_in`] over a list.
pub open spec fn labels_in_cases(l: Seq<CaseGroupV>) -> Seq<Seq<char>>
    decreases l,
{
    if l.len() == 0 {
        seq![]
    } else {
        labels_in_cases(l.drop_last()) + labels_in_case(l.last())
    }
}

/// [`labels_in`] inside a catch clause.
pub open spec fn labels_in_catch(c: CatchV) -> Seq<Seq<char>>
    decreases c,
{
    labels_in(*c.body)
}

/// [`labels_in`] over a list.
pub open spec fn labels_in_catches(l: Seq<CatchV>) -> Seq<Seq<char>>
    decreases l,
{
    if l.len() == 0 {
        seq![]
    } else {
        labels_in_catches(l.drop_last()) + labels_in_catch(l.last())
    }
}

/// Adds the labels that `s` defines to `out`.
pub fn collect_labels(s: &Stmt, out: &mut Vec<String>)
    ensures
        strs(final(out)@) == strs(old(out)@) + labels_in(s@),
    decreases s,
{
    match s {
        Stmt::Block(items) => { collect_labels_vec(items, out); },
        Stmt::If { then_stmt, else_stmt, .. } => {
            collect_labels(then_stmt, out);
            collect_labels_opt(else_stmt, out);
            assert(strs(out@) =~= strs(old(out)@) + labels_in(s@));
        },
        Stmt::While { body, .. } => { collect_labels(body, out); },
        Stmt::DoWhile { body, .. } => { collect_labels(body, out); },
        Stmt::For { init, body, .. } => {
            collect_labels_vec(init, out);
            collect_labels(body, out);
            assert(strs(out@) =~= strs(old(out)@) + labels_in(s@));
        },
        Stmt::ForEach { body, .. } => { collect_labels(body, out); },
        Stmt::Switch { cases, default, .. } => {
            collect_labels_cases(cases, out);
            collect_labels_opt(default, out);
            assert(strs(out@) =~= strs(old(out)@) + labels_in(s@));
        },
        Stmt::Try { body, catches, finally } => {
            collect_labels(body, out);
            collect_labels_catches(catches, out);
            collect_labels_opt(finally, out);
            assert(strs(out@) =~= strs(old(out)@) + labels_in(s@));
        },
        Stmt::TryWithResources { resources, body, catches, finally } => {
            collect_labels_vec(resources, out);
            collect_labels(body, out);
            collect_labels_catches(catches, out);
            collect_labels_opt(finally, out);
            assert(strs(out@) =~= strs(old(out)@) + labels_in(s@));
        },
        Stmt::Synchronized { body, .. } => { collect_labels(body, out); },
        Stmt::Labeled { label, body } => {
            push_label(label, out);
            collect_labels(body, out);
            assert(strs(out@) =~= strs(old(out)@) + labels_in(s@));
        },
        _ => {},
    }
}

/// `collect_labels` where there is a value.
pub fn collect_labels_opt(o: &Option<Box<Stmt>>, out: &mut Vec<String>)
    ensures
        strs(final(out)@) == strs(old(out)@) + labels_in_opt(opt_stmt(*o)),
    decreases o,
{
    if let Some(x) = o {
        collect_labels(x, out);
    }
}

/// `collect_labels` over a list.
#[verifier::loop_isolation(false)]
pub fn collect_labels_vec(l: &Vec<Stmt>, out: &mut Vec<String>)
    ensures
        strs(final(out)@) == strs(old(out)@) + labels_in_seq(stmts(l@)),
    decreases l,
{
    let ghost all = stmts(l@);
    let mut i: usize = 0;
    while i < l.len()
        invariant
            i <= l.len(),
            strs(out@) == strs(old(out)@) + labels_in_seq(all.take(i as int)),
        decreases l.len() - i,
    {
        assert(decreases_to!(l => l@[i as int]));
        assert(all.take(i + 1).drop_last() =~= all.take(i as int));
        collect_labels(&l[i], out);
        i += 1;
        assert(strs(out@) =~= strs(old(out)@) + labels_in_seq(all.take(i as int)));
    }
    assert(all.take(i as int) =~= all);
}

/// `collect_labels` inside a switch arm.
pub fn collect_labels_case(c: &CaseGroup, out: &mut Vec<String>)
    ensures
        strs(final(out)@) == strs(old(out)@) + labels_in_case(c@),
    decreases c,
{
    collect_labels_vec(&c.body, out);
}

/// `collect_labels` over a list.
#[verifier::loop_isolation(false)]
pub fn collect_labels_cases(l: &Vec<CaseGroup>, out: &mut Vec<String>)
    ensures
        strs(final(out)@) == strs(old(out)@) + labels_in_cases(case_groups(l@)),
    decreases l,
{
    let ghost all = case_groups(l@);
    let mut i: usize = 0;
    while i < l.len()
        invariant
            i <= l.len(),
            strs(out@) == strs(old(out)@) + labels_in_cases(all.take(i as int)),
        decreases l.len() - i,
    {
        assert(decreases_to!(l => l@[i as int]));
        assert(all.take(i + 1).drop_last() =~= all.take(i as int));
        collect_labels_case(&l[i], out);
        i += 1;
        assert(strs(out@) =~= strs(old(out)@) + labels_in_cases(all.take(i as int)));
    }
    assert(all.take(i as int) =~= all);
}

/// `collect_labels` inside a catch clause.
pub fn collect_labels_catch(c: &Catch, out: &mut Vec<String>)
    ensures
        strs(final(out)@) == strs(old(out)@) + labels_in_catch(c@),
    decreases c,
{
    collect_labels(&c.body, out);
}

/// `collect_labels` over a list.
#[verifier::loop_isolation(false)]
pub fn collect_labels_catches(l: &Vec<Catch>, out: &mut Vec<String>)
    ensures
        strs(final(out)@) == strs(old(out)@) + labels_in_catches(catch_list(l@)),
    decreases l,
{
    let ghost all = catch_list(l@);
    let mut i: usize = 0;
    while i < l.len()
        invariant
            i <= l.len(),
            strs(out@) == strs(old(out)@) + labels_in_catches(all.take(i as int)),
        decreases l.len() - i,
    {
        assert(decreases_to!(l => l@[i as int]));
        assert(all.take(i + 1).drop_last() =~= all.take(i as int));
        collect_labels_catch(&l[i], out);
        i += 1;
        assert(strs(out@) =~= strs(old(out)@) + labels_in_catches(all.take(i as int)));
    }
    assert(all.take(i as int) =~= all);
}

/// Adds a label to `out`.
fn push_label(label: &String, out: &mut Vec<String>)
    ensures
        strs(final(out)@) == strs(old(out)@).push(label@),
{
    out.push(label.clone());
    assert(strs(out@) =~= strs(old(out)@).push(label@));
}

/// Bytecode label `v` stands in `s`.
pub open spec fn defines_id(s: StmtV, v: u32) -> bool
    decreases s,
{
    match s {
        StmtV::Block(items) => defines_id_seq(items, v),
        StmtV::If { then_stmt, else_stmt, .. } => defines_id(*then_stmt, v)
            || defines_id_opt(else_stmt, v),
        StmtV::While { body, .. } => defines_id(*body, v),
        StmtV::DoWhile { body, .. } => defines_id(*body, v),
        StmtV::For { init, body, .. } => defines_id_seq(init, v) || defines_id(*body, v),
        StmtV::ForEach { body, .. } => defines_id(*body, v),
        StmtV::Switch { cases, default, .. } => defines_id_cases(cases, v)
            || defines_id_opt(default, v),
        StmtV::Try { body, catches, finally } => defines_id(*body, v)
            || defines_id_catches(catches, v) || defines_id_opt(finally, v),
        StmtV::TryWithResources { resources, body, catches, finally } => defines_id_seq(
            resources,
            v,
        )
            || defines_id(*body, v) || defines_id_catches(catches, v) || defines_id_opt(finally, v),
        StmtV::Synchronized { body, .. } => defines_id(*body, v),
        StmtV::Label(n) => n == v,
        StmtV::Labeled { body, .. } => defines_id(*body, v),
        _ => false,
    }
}

/// [`defines_id`] where there is a value.
pub open spec fn defines_id_opt(o: Option<Box<StmtV>>, v: u32) -> bool
    decreases o,
{
    match o {
        Some(x) => defines_id(*x, v),
        None => false,
    }
}

/// [`defines_id`] over a list.
pub open spec fn defines_id_seq(l: Seq<StmtV>, v: u32) -> bool
    decreases l,
{
    exists|i: int| 0 <= i < l.len() && defines_id(#[trigger] l[i], v)
}

/// [`defines_id`] inside a switch arm.
pub open spec fn defines_id_case(c: CaseGroupV, v: u32) -> bool
    decreases c,
{
    defines_id_seq(c.body, v)
}

/// [`defines_id`] over a list.
pub open spec fn defines_id_cases(l: Seq<CaseGroupV>, v: u32) -> bool
    decreases l,
{
    exists|i: int| 0 <= i < l.len() && defines_id_case(#[trigger] l[i], v)
}

/// [`defines_id`] inside a catch clause.
pub open spec fn defines_id_catch(c: CatchV, v: u32) -> bool
    decreases c,
{
    defines_id(*c.body, v)
}

/// [`defines_id`] over a list.
pub open spec fn defines_id_catches(l: Seq<CatchV>, v: u32) -> bool
    decreases l,
{
    exists|i: int| 0 <= i < l.len() && defines_id_catch(#[trigger] l[i], v)
}

/// Adds the bytecode labels in `s` to `out`.
pub fn collect_label_ids(s: &Stmt, out: &mut HashSet<u32>)
    ensures
        forall|v: u32|
            #[trigger] final(out)@.contains(v) <==> old(out)@.contains(v) || defines_id(s@, v),
    decreases s,
{
    match s {
        Stmt::Block(items) => { collect_label_ids_vec(items, out); },
        Stmt::If { then_stmt, else_stmt, .. } => {
            collect_label_ids(then_stmt, out);
            collect_label_ids_opt(else_stmt, out);
        },
        Stmt::While { body, .. } => { collect_label_ids(body, out); },
        Stmt::DoWhile { body, .. } => { collect_label_ids(body, out); },
        Stmt::For { init, body, .. } => {
            collect_label_ids_vec(init, out);
            collect_label_ids(body, out);
        },
        Stmt::ForEach { body, .. } => { collect_label_ids(body, out); },
        Stmt::Switch { cases, default, .. } => {
            collect_label_ids_cases(cases, out);
            collect_label_ids_opt(default, out);
        },
        Stmt::Try { body, catches, finally } => {
            collect_label_ids(body, out);
            collect_label_ids_catches(catches, out);
            collect_label_ids_opt(finally, out);
        },
        Stmt::TryWithResources { resources, body, catches, finally } => {
            collect_label_ids_vec(resources, out);
            collect_label_ids(body, out);
            collect_label_ids_catches(catches, out);
            collect_label_ids_opt(finally, out);
        },
        Stmt::Synchronized { body, .. } => { collect_label_ids(body, out); },
        Stmt::Label(n) => { out.insert(*n); },
        Stmt::Labeled { body, .. } => { collect_label_ids(body, out); },
        _ => {},
    }
}

/// `collect_label_ids` where there is a value.
pub fn collect_label_ids_opt(o: &Option<Box<Stmt>>, out: &mut HashSet<u32>)
    ensures
        forall|v: u32|
            #[trigger] final(out)@.contains(v)
                <==> old(out)@.contains(v) || defines_id_opt(opt_stmt(*o), v),
    decreases o,
{
    if let Some(x) = o {
        collect_label_ids(x, out);
    }
}

/// `collect_label_ids` over a list.
#[verifier::loop_isolation(false)]
pub fn collect_label_ids_vec(l: &Vec<Stmt>, out: &mut HashSet<u32>)
    ensures
        forall|v: u32|
            #[trigger] final(out)@.contains(v)
                <==> old(out)@.contains(v) || defines_id_seq(stmts(l@), v),
    decreases l,
{
    let mut i: usize = 0;
    while i < l.len()
        invariant
            i <= l.len(),
            forall|v: u32| #[trigger] out@.contains(v) <==> old(out)@.contains(v) || exists|j: int|
                0 <= j < i && defines_id(#[trigger] stmts(l@)[j], v),
        decreases l.len() - i,
    {
        assert(decreases_to!(l => l@[i as int]));
        assert(stmts(l@)[i as int] == l@[i as int]@);
        collect_label_ids(&l[i], out);
        i += 1;
    }
}

/// `collect_label_ids` inside a switch arm.
pub fn collect_label_ids_case(c: &CaseGroup, out: &mut HashSet<u32>)
    ensures
        forall|v: u32|
            #[trigger] final(out)@.contains(v) <==> old(out)@.contains(v) || defines_id_case(c@, v),
    decreases c,
{
    collect_label_ids_vec(&c.body, out);
}

/// `collect_label_ids` over a list.
#[verifier::loop_isolation(false)]
pub fn collect_label_ids_cases(l: &Vec<CaseGroup>, out: &mut HashSet<u32>)
    ensures
        forall|v: u32|
            #[trigger] final(out)@.contains(v)
                <==> old(out)@.contains(v) || defines_id_cases(case_groups(l@), v),
    decreases l,
{
    let mut i: usize = 0;
    while i < l.len()
        invariant
            i <= l.len(),
            forall|v: u32| #[trigger] out@.contains(v) <==> old(out)@.contains(v) || exists|j: int|
                0 <= j < i && defines_id_case(#[trigger] case_groups(l@)[j], v),
        decreases l.len() - i,
    {
        assert(decreases_to!(l => l@[i as int]));
        assert(case_groups(l@)[i as int] == l@[i as int]@);
        collect_label_ids_case(&l[i], out);
        i += 1;
    }
}

/// `collect_label_ids` inside a catch clause.
pub fn collect_label_ids_catch(c: &Catch, out: &mut HashSet<u32>)
    ensures
        forall|v: u32|
            #[trigger] final(out)@.contains(v)
                <==> old(out)@.contains(v) || defines_id_catch(c@, v),
    decreases c,
{
    collect_label_ids(&c.body, out);
}

/// `collect_label_ids` over a list.
#[verifier::loop_isolation(false)]
pub fn collect_label_ids_catches(l: &Vec<Catch>, out: &mut HashSet<u32>)
    ensures
        forall|v: u32|
            #[trigger] final(out)@.contains(v)
                <==> old(out)@.contains(v) || defines_id_catches(catch_list(l@), v),
    decreases l,
{
    let mut i: usize = 0;
    while i < l.len()
        invariant
            i <= l.len(),
            forall|v: u32| #[trigger] out@.contains(v) <==> old(out)@.contains(v) || exists|j: int|
                0 <= j < i && defines_id_catch(#[trigger] catch_list(l@)[j], v),
        decreases l.len() - i,
    {
        assert(decreases_to!(l => l@[i as int]));
        assert(catch_list(l@)[i as int] == l@[i as int]@);
        collect_label_ids_catch(&l[i], out);
        i += 1;
    }
}

/// A labelled jump, or a jump to a bytecode label, whose target is not defined.
pub open spec fn undefined_jump(s: StmtV, defined: Seq<Seq<char>>, ids: Set<u32>) -> bool {
    match s {
        StmtV::Break(l) => l matches Some(n) && !defined.contains(n),
        StmtV::Continue(l) => l matches Some(n) && !defined.contains(n),
        StmtV::Goto(id) => !ids.contains(id),
        _ => false,
    }
}

/// Whether `s` jumps to a target that is not defined.
fn is_undefined_jump(s: &Stmt, defined: &Vec<String>, ids: &HashSet<u32>) -> (r: bool)
    ensures
        r == undefined_jump(s@, strs(defined@), ids@),
{
    match s {
        Stmt::Break(l) => match l {
            Some(n) => !contains_string(defined, n.as_str()),
            None => false,
        },
        Stmt::Continue(l) => match l {
            Some(n) => !contains_string(defined, n.as_str()),
            None => false,
        },
        Stmt::Goto(id) => !ids.contains(id),
        _ => false,
    }
}

/// The statement inside blocks of one statement.
pub open spec fn unwrap_single(s: StmtV) -> StmtV
    decreases s,
{
    match s {
        StmtV::Block(v) => if v.len() == 1 {
            unwrap_single(v[0])
        } else {
            s
        },
        _ => s,
    }
}

/// The statement inside blocks of one statement.
pub fn single(s: &Stmt) -> (r: &Stmt)
    ensures
        r@ == unwrap_single(s@),
    decreases s,
{
    match s {
        Stmt::Block(v) => {
            assert(stmts(v@).len() == v@.len());
            if v.len() != 1 {
                return s;
            }
            assert(decreases_to!(v => v@[0]));
            assert(stmts(v@)[0] == v@[0]@);
            single(&v[0])
        },
        _ => s,
    }
}

/// The last statement of a list: of an `if` with one branch that is only an
/// undefined jump, the other branch stays.
pub open spec fn tail_folded(s: StmtV, defined: Seq<Seq<char>>, ids: Set<u32>) -> StmtV
    decreases s,
{
    match s {
        StmtV::Block(v) => if v.len() == 1 {
            StmtV::Block(seq![tail_folded(v[0], defined, ids)])
        } else {
            s
        },
        StmtV::If { cond, then_stmt, else_stmt } => match else_stmt {
            Some(e) => {
                let in_then = undefined_jump(unwrap_single(*then_stmt), defined, ids);
                let in_else = undefined_jump(unwrap_single(*e), defined, ids);
                if in_then && !in_else {
                    StmtV::If { cond: inverted(cond), then_stmt: e, else_stmt: None }
                } else if in_else && !in_then {
                    StmtV::If { cond, then_stmt, else_stmt: None }
                } else {
                    s
                }
            },
            None => s,
        },
        _ => s,
    }
}

/// Folds the last statement of a list.
fn fold_tail_if(s: &mut Stmt, defined: &Vec<String>, ids: &HashSet<u32>)
    ensures
        final(s)@ == tail_folded(old(s)@, strs(defined@), ids@),
    decreases *old(s),
{
    if let Stmt::Block(v) = s {
        assert(stmts(v@).len() == v@.len());
        if v.len() == 1 {
            assert(stmts(v@)[0] == v@[0]@);
            assert(decreases_to!(*old(s) => v@[0]));
            fold_tail_if(&mut v[0], defined, ids);
            assert(stmts(v@) =~= seq![v@[0]@]);
        }
        return ;
    }
    proof {
        reveal_with_fuel(Stmt::view, 2);
        reveal_with_fuel(opt_stmt, 2);
    }
    match take_stmt(s) {
        Stmt::If { cond, then_stmt, else_stmt: Some(e) } => {
            let in_then = is_undefined_jump(single(&then_stmt), defined, ids);
            let in_else = is_undefined_jump(single(&e), defined, ids);
            if in_then && !in_else {
                *s = Stmt::If { cond: invert(cond), then_stmt: e, else_stmt: None };
            } else if in_else && !in_then {
                *s = Stmt::If { cond, then_stmt, else_stmt: None };
            } else {
                *s = Stmt::If { cond, then_stmt, else_stmt: Some(e) };
            }
        },
        other => {
            *s = other;
        },
    }
}

/// Folding does not add to the size.
proof fn lemma_tail_folded_size(s: StmtV, defined: Seq<Seq<char>>, ids: Set<u32>)
    ensures
        stmt_size(tail_folded(s, defined, ids)) <= stmt_size(s),
    decreases s,
{
    match s {
        StmtV::Block(v) => {
            if v.len() == 1 {
                lemma_tail_folded_size(v[0], defined, ids);
                let w = seq![tail_folded(v[0], defined, ids)];
                lemma_stmts_size_first(v);
                lemma_stmts_size_first(w);
                assert(v.skip(1) =~= w.skip(1));
                assert(stmt_size(StmtV::Block(w)) == 1 + stmts_size(w));
            }
        },
        StmtV::If { then_stmt, else_stmt, .. } => {
            if let Some(e) = else_stmt {
                assert(opt_stmt_size(else_stmt) == 1 + stmt_size(*e));
                assert(opt_stmt_size(None) == 1);
            }
        },
        _ => {},
    }
}

/// A jump that may go at the end of a list: an undefined one, or a plain one
/// outside any loop.
pub open spec fn is_loose_end(
    s: StmtV,
    defined: Seq<Seq<char>>,
    ids: Set<u32>,
    in_loop: bool,
) -> bool {
    undefined_jump(s, defined, ids) || (!in_loop && (s == StmtV::Break(None) || s
        == StmtV::Continue(None)))
}

/// Whether a jump may go at the end of a list.
fn loose_end(s: &Stmt, defined: &Vec<String>, ids: &HashSet<u32>, in_loop: bool) -> (r: bool)
    ensures
        r == is_loose_end(s@, strs(defined@), ids@, in_loop),
{
    is_undefined_jump(s, defined, ids) || (!in_loop && match s {
        Stmt::Break(l) => l.is_none(),
        Stmt::Continue(l) => l.is_none(),
        _ => false,
    })
}

/// A list with undefined jumps demoted: a loose end goes, the last statement is
/// folded first.
pub open spec fn jumps_demoted_list(
    v: Seq<StmtV>,
    defined: Seq<Seq<char>>,
    ids: Set<u32>,
    in_loop: bool,
) -> Seq<StmtV>
    decreases stmts_size(v), 1nat
    via jumps_demoted_list_decreases
{
    if v.len() == 0 {
        v
    } else {
        let front = jumps_demoted_seq(v.drop_last(), defined, ids, in_loop);
        if is_loose_end(v.last(), defined, ids, in_loop) {
            front
        } else {
            front.push(jumps_demoted(tail_folded(v.last(), defined, ids), defined, ids, in_loop))
        }
    }
}

#[via_fn]
proof fn jumps_demoted_list_decreases(
    v: Seq<StmtV>,
    defined: Seq<Seq<char>>,
    ids: Set<u32>,
    in_loop: bool,
) {
    if v.len() > 0 {
        lemma_tail_folded_size(v.last(), defined, ids);
    }
}

/// `s` with its undefined jumps demoted: inside a loop or switch to plain jumps,
/// elsewhere to nothing.
pub open spec fn jumps_demoted(
    s: StmtV,
    defined: Seq<Seq<char>>,
    ids: Set<u32>,
    in_loop: bool,
) -> StmtV
    decreases stmt_size(s), 0nat,
{
    match s {
        StmtV::Block(items) => StmtV::Block(jumps_demoted_list(items, defined, ids, in_loop)),
        StmtV::If { cond, then_stmt, else_stmt } => StmtV::If {
            cond,
            then_stmt: Box::new(jumps_demoted(*then_stmt, defined, ids, in_loop)),
            else_stmt: jumps_demoted_opt(else_stmt, defined, ids, in_loop),
        },
        StmtV::While { cond, body } => StmtV::While {
            cond,
            body: Box::new(jumps_demoted(*body, defined, ids, true)),
        },
        StmtV::DoWhile { body, cond } => StmtV::DoWhile {
            body: Box::new(jumps_demoted(*body, defined, ids, true)),
            cond,
        },
        StmtV::For { init, cond, update, body } => StmtV::For {
            init: jumps_demoted_seq(init, defined, ids, in_loop),
            cond,
            update,
            body: Box::new(jumps_demoted(*body, defined, ids, true)),
        },
        StmtV::ForEach { var, iterable, is_array, body } => StmtV::ForEach {
            var,
            iterable,
            is_array,
            body: Box::new(jumps_demoted(*body, defined, ids, true)),
        },
        StmtV::Switch { selector, cases, default, on_string } => StmtV::Switch {
            selector,
            cases: jumps_demoted_cases(cases, defined, ids, true),
            default: jumps_demoted_opt(default, defined, ids, true),
            on_string,
        },
        StmtV::Try { body, catches, finally } => StmtV::Try {
            body: Box::new(jumps_demoted(*body, defined, ids, in_loop)),
            catches: jumps_demoted_catches(catches, defined, ids, in_loop),
            finally: jumps_demoted_opt(finally, defined, ids, in_loop),
        },
        StmtV::TryWithResources { resources, body, catches, finally } => StmtV::TryWithResources {
            resources: jumps_demoted_seq(resources, defined, ids, in_loop),
            body: Box::new(jumps_demoted(*body, defined, ids, in_loop)),
            catches: jumps_demoted_catches(catches, defined, ids, in_loop),
            finally: jumps_demoted_opt(finally, defined, ids, in_loop),
        },
        StmtV::Synchronized { lock, body } => StmtV::Synchronized {
            lock,
            body: Box::new(jumps_demoted(*body, defined, ids, in_loop)),
        },
        StmtV::Goto(_) => if undefined_jump(s, defined, ids) {
            if in_loop { StmtV::Break(None) } else { empty_block() }
        } else {
            s
        },
        StmtV::Labeled { label, body } => StmtV::Labeled {
            label,
            body: Box::new(jumps_demoted(*body, defined, ids, in_loop)),
        },
        StmtV::Break(_) => if undefined_jump(s, defined, ids) {
            if in_loop { StmtV::Break(None) } else { empty_block() }
        } else {
            s
        },
        StmtV::Continue(_) => if undefined_jump(s, defined, ids) {
            if in_loop { StmtV::Continue(None) } else { empty_block() }
        } else {
            s
        },
        _ => s,
    }
}

/// [`jumps_demoted`] where there is a value.
pub open spec fn jumps_demoted_opt(
    o: Option<Box<StmtV>>,
    defined: Seq<Seq<char>>,
    ids: Set<u32>,
    in_loop: bool,
) -> Option<Box<StmtV>>
    decreases opt_stmt_size(o), 0nat,
{
    match o {
        Some(x) => Some(Box::new(jumps_demoted(*x, defined, ids, in_loop))),
        None => None,
    }
}

/// [`jumps_demoted`] over a list.
pub open spec fn jumps_demoted_seq(
    v: Seq<StmtV>,
    defined: Seq<Seq<char>>,
    ids: Set<u32>,
    in_loop: bool,
) -> Seq<StmtV>
    decreases stmts_size(v), 0nat,
{
    if v.len() == 0 {
        seq![]
    } else {
        jumps_demoted_seq(v.drop_last(), defined, ids, in_loop).push(
            jumps_demoted(v.last(), defined, ids, in_loop)
        )
    }
}

/// [`jumps_demoted`] inside a switch arm.
pub open spec fn jumps_demoted_case(
    c: CaseGroupV,
    defined: Seq<Seq<char>>,
    ids: Set<u32>,
    in_loop: bool,
) -> CaseGroupV
    decreases case_size(c), 0nat,
{
    CaseGroupV { body: jumps_demoted_list(c.body, defined, ids, in_loop), ..c }
}

/// [`jumps_demoted`] over a list.
pub open spec fn jumps_demoted_cases(
    v: Seq<CaseGroupV>,
    defined: Seq<Seq<char>>,
    ids: Set<u32>,
    in_loop: bool,
) -> Seq<CaseGroupV>
    decreases cases_size(v), 0nat,
{
    if v.len() == 0 {
        seq![]
    } else {
        jumps_demoted_cases(v.drop_last(), defined, ids, in_loop).push(
            jumps_demoted_case(v.last(), defined, ids, in_loop)
        )
    }
}

/// [`jumps_demoted`] inside a catch clause.
pub open spec fn jumps_demoted_catch(
    c: CatchV,
    defined: Seq<Seq<char>>,
    ids: Set<u32>,
    in_loop: bool,
) -> CatchV
    decreases catch_size(c), 0nat,
{
    CatchV { body: Box::new(jumps_demoted(*c.body, defined, ids, in_loop)), ..c }
}

/// [`jumps_demoted`] over a list.
pub open spec fn jumps_demoted_catches(
    v: Seq<CatchV>,
    defined: Seq<Seq<char>>,
    ids: Set<u32>,
    in_loop: bool,
) -> Seq<CatchV>
    decreases catches_size(v), 0nat,
{
    if v.len() == 0 {
        seq![]
    } else {
        jumps_demoted_catches(v.drop_last(), defined, ids, in_loop).push(
            jumps_demoted_catch(v.last(), defined, ids, in_loop)
        )
    }
}

/// Demotes the undefined jumps in `s`: inside a loop or switch to plain jumps,
/// elsewhere to nothing.
pub fn fix_stmt(s: &mut Stmt, defined: &Vec<String>, ids: &HashSet<u32>, in_loop: bool)
    ensures
        final(s)@ == jumps_demoted(old(s)@, strs(defined@), ids@, in_loop),
    decreases stmt_size(old(s)@), 0nat,
{
    match s {
        Stmt::Block(items) => fix_vec(items, defined, ids, in_loop),
        Stmt::If { then_stmt, else_stmt, .. } => {
            fix_stmt(then_stmt, defined, ids, in_loop);
            fix_stmt_opt(else_stmt, defined, ids, in_loop);
        },
        Stmt::While { body, .. } => fix_stmt(body, defined, ids, true),
        Stmt::DoWhile { body, .. } => fix_stmt(body, defined, ids, true),
        Stmt::For { init, body, .. } => {
            fix_stmt_vec(init, defined, ids, in_loop);
            fix_stmt(body, defined, ids, true);
        },
        Stmt::ForEach { body, .. } => fix_stmt(body, defined, ids, true),
        Stmt::Switch { cases, default, .. } => {
            fix_stmt_cases(cases, defined, ids, true);
            fix_stmt_opt(default, defined, ids, true);
        },
        Stmt::Try { body, catches, finally } => {
            fix_stmt(body, defined, ids, in_loop);
            fix_stmt_catches(catches, defined, ids, in_loop);
            fix_stmt_opt(finally, defined, ids, in_loop);
        },
        Stmt::TryWithResources { resources, body, catches, finally } => {
            fix_stmt_vec(resources, defined, ids, in_loop);
            fix_stmt(body, defined, ids, in_loop);
            fix_stmt_catches(catches, defined, ids, in_loop);
            fix_stmt_opt(finally, defined, ids, in_loop);
        },
        Stmt::Synchronized { body, .. } => { fix_stmt(body, defined, ids, in_loop); },
        Stmt::Goto(n) => {
            if !ids.contains(n) { *s = if in_loop { Stmt::Break(None) } else { no_stmt() }; }
        },
        Stmt::Labeled { body, .. } => { fix_stmt(body, defined, ids, in_loop); },
        Stmt::Break(label) => {
            if is_undefined_label(label, defined) {
                *s = if in_loop { Stmt::Break(None) } else { no_stmt() };
            }
        },
        Stmt::Continue(label) => {
            if is_undefined_label(label, defined) {
                *s = if in_loop { Stmt::Continue(None) } else { no_stmt() };
            }
        },
        _ => {},
    }
}

/// `fix_stmt` where there is a value.
pub fn fix_stmt_opt(
    o: &mut Option<Box<Stmt>>,
    defined: &Vec<String>,
    ids: &HashSet<u32>,
    in_loop: bool,
)
    ensures
        opt_stmt(*final(o)) == jumps_demoted_opt(opt_stmt(*old(o)), strs(defined@), ids@, in_loop),
    decreases opt_stmt_size(opt_stmt(*old(o))), 0nat,
{
    if let Some(x) = o {
        fix_stmt(x, defined, ids, in_loop);
    }
}

/// `fix_stmt` over a list.
#[verifier::loop_isolation(false)]
pub fn fix_stmt_vec(v: &mut Vec<Stmt>, defined: &Vec<String>, ids: &HashSet<u32>, in_loop: bool)
    ensures
        stmts(final(v)@) == jumps_demoted_seq(stmts(old(v)@), strs(defined@), ids@, in_loop),
    decreases stmts_size(stmts(old(v)@)), 0nat,
{
    let ghost all = stmts(v@);
    let mut i: usize = 0;
    assert(stmts(v@.take(0)) =~= seq![]);
    while i < v.len()
        invariant
            i <= v.len(),
            v.len() == old(v).len(),
            stmts(v@.take(i as int)) == jumps_demoted_seq(
                all.take(i as int),
                strs(defined@),
                ids@,
                in_loop,
            ),
            forall|j: int| i <= j < v.len() ==> #[trigger] v@[j] == old(v)@[j],
        decreases v.len() - i,
    {
        let ghost before = stmts(v@.take(i as int));
        assert(all.take(i + 1).drop_last() =~= all.take(i as int));
        assert(all.take(i + 1).last() == v@[i as int]@);
        proof {
            lemma_stmts_size(stmts(old(v)@), i as int);
        }
        fix_stmt(&mut v[i], defined, ids, in_loop);
        i += 1;
        assert(stmts(v@.take(i as int)) =~= before.push(v@[i - 1]@));
    }
    assert(v@.take(i as int) =~= v@);
    assert(all.take(i as int) =~= all);
}

/// `fix_stmt` inside a switch arm.
pub fn fix_stmt_case(c: &mut CaseGroup, defined: &Vec<String>, ids: &HashSet<u32>, in_loop: bool)
    ensures
        final(c)@ == jumps_demoted_case(old(c)@, strs(defined@), ids@, in_loop),
    decreases case_size(old(c)@), 0nat,
{
    fix_vec(&mut c.body, defined, ids, in_loop);
}

/// `fix_stmt` over a list.
#[verifier::loop_isolation(false)]
pub fn fix_stmt_cases(
    v: &mut Vec<CaseGroup>,
    defined: &Vec<String>,
    ids: &HashSet<u32>,
    in_loop: bool,
)
    ensures
        case_groups(final(v)@) == jumps_demoted_cases(
            case_groups(old(v)@),
            strs(defined@),
            ids@,
            in_loop,
        ),
    decreases cases_size(case_groups(old(v)@)), 0nat,
{
    let ghost all = case_groups(v@);
    let mut i: usize = 0;
    assert(case_groups(v@.take(0)) =~= seq![]);
    while i < v.len()
        invariant
            i <= v.len(),
            v.len() == old(v).len(),
            case_groups(v@.take(i as int)) == jumps_demoted_cases(
                all.take(i as int),
                strs(defined@),
                ids@,
                in_loop,
            ),
            forall|j: int| i <= j < v.len() ==> #[trigger] v@[j] == old(v)@[j],
        decreases v.len() - i,
    {
        let ghost before = case_groups(v@.take(i as int));
        assert(all.take(i + 1).drop_last() =~= all.take(i as int));
        assert(all.take(i + 1).last() == v@[i as int]@);
        proof {
            lemma_cases_size(case_groups(old(v)@), i as int);
        }
        fix_stmt_case(&mut v[i], defined, ids, in_loop);
        i += 1;
        assert(case_groups(v@.take(i as int)) =~= before.push(v@[i - 1]@));
    }
    assert(v@.take(i as int) =~= v@);
    assert(all.take(i as int) =~= all);
}

/// `fix_stmt` inside a catch clause.
pub fn fix_stmt_catch(c: &mut Catch, defined: &Vec<String>, ids: &HashSet<u32>, in_loop: bool)
    ensures
        final(c)@ == jumps_demoted_catch(old(c)@, strs(defined@), ids@, in_loop),
    decreases catch_size(old(c)@), 0nat,
{
    fix_stmt(&mut c.body, defined, ids, in_loop);
}

/// `fix_stmt` over a list.
#[verifier::loop_isolation(false)]
pub fn fix_stmt_catches(
    v: &mut Vec<Catch>,
    defined: &Vec<String>,
    ids: &HashSet<u32>,
    in_loop: bool,
)
    ensures
        catch_list(final(v)@) == jumps_demoted_catches(
            catch_list(old(v)@),
            strs(defined@),
            ids@,
            in_loop,
        ),
    decreases catches_size(catch_list(old(v)@)), 0nat,
{
    let ghost all = catch_list(v@);
    let mut i: usize = 0;
    assert(catch_list(v@.take(0)) =~= seq![]);
    while i < v.len()
        invariant
            i <= v.len(),
            v.len() == old(v).len(),
            catch_list(v@.take(i as int)) == jumps_demoted_catches(
                all.take(i as int),
                strs(defined@),
                ids@,
                in_loop,
            ),
            forall|j: int| i <= j < v.len() ==> #[trigger] v@[j] == old(v)@[j],
        decreases v.len() - i,
    {
        let ghost before = catch_list(v@.take(i as int));
        assert(all.take(i + 1).drop_last() =~= all.take(i as int));
        assert(all.take(i + 1).last() == v@[i as int]@);
        proof {
            lemma_catches_size(catch_list(old(v)@), i as int);
        }
        fix_stmt_catch(&mut v[i], defined, ids, in_loop);
        i += 1;
        assert(catch_list(v@.take(i as int)) =~= before.push(v@[i - 1]@));
    }
    assert(v@.take(i as int) =~= v@);
    assert(all.take(i as int) =~= all);
}

/// Whether a label is given and not defined.
fn is_undefined_label(label: &Option<String>, defined: &Vec<String>) -> (r: bool)
    ensures
        r == (opt_str(*label) matches Some(n) && !strs(defined@).contains(n)),
{
    match label {
        Some(n) => !contains_string(defined, n.as_str()),
        None => false,
    }
}

/// Demotes the undefined jumps of a list.
#[verifier::loop_isolation(false)]
#[verifier::spinoff_prover]
fn fix_vec(v: &mut Vec<Stmt>, defined: &Vec<String>, ids: &HashSet<u32>, in_loop: bool)
    ensures
        stmts(final(v)@) == jumps_demoted_list(stmts(old(v)@), strs(defined@), ids@, in_loop),
    decreases stmts_size(stmts(old(v)@)), 1nat,
{
    let ghost all = stmts(v@);
    let ghost d = strs(defined@);
    if v.len() == 0 {
        return ;
    }
    let n = v.len() - 1;
    if let Some(last) = v.pop() {
        let mut last = last;
        assert(stmts(v@) =~= all.drop_last());
        assert(last@ == all.last());
        proof {
            lemma_tail_folded_size(all.last(), d, ids@);
        }
        fix_stmt_vec(v, defined, ids, in_loop);
        if loose_end(&last, defined, ids, in_loop) {
            return ;
        }
        fold_tail_if(&mut last, defined, ids);
        fix_stmt(&mut last, defined, ids, in_loop);
        let ghost front = stmts(v@);
        let ghost x = last@;
        v.push(last);
        assert(stmts(v@) =~= front.push(x));
    }
}

/// `s` without empty blocks inside nested blocks.
pub open spec fn empties_stripped(s: StmtV) -> StmtV
    decreases s,
{
    match s {
        StmtV::Block(v) => StmtV::Block(nonempty(empties_stripped_seq(v))),
        _ => s,
    }
}

/// [`empties_stripped`] over a list.
pub open spec fn empties_stripped_seq(v: Seq<StmtV>) -> Seq<StmtV>
    decreases v,
{
    Seq::new(v.len(), |i: int| if 0 <= i < v.len() { empties_stripped(v[i]) } else { arbitrary() })
}

/// Drops empty blocks inside nested blocks.
fn strip_empty(s: &mut Stmt)
    ensures
        final(s)@ == empties_stripped(old(s)@),
    decreases *old(s),
{
    if let Stmt::Block(v) = s {
        strip_empty_vec(v);
        drop_empty(v);
    }
}

/// `strip_empty` over a list.
#[verifier::loop_isolation(false)]
pub fn strip_empty_vec(v: &mut Vec<Stmt>)
    ensures
        stmts(final(v)@) == empties_stripped_seq(stmts(old(v)@)),
    decreases *old(v),
{
    let mut i: usize = 0;
    while i < v.len()
        invariant
            i <= v.len(),
            v.len() == old(v).len(),
            forall|j: int| 0 <= j < i ==> (#[trigger] v@[j])@ == empties_stripped(old(v)@[j]@),
            forall|j: int| i <= j < v.len() ==> #[trigger] v@[j] == old(v)@[j],
        decreases v.len() - i,
    {
        assert(decreases_to!(*old(v) => v@[i as int]));
        strip_empty(&mut v[i]);
        i += 1;
    }
    assert(stmts(v@) =~= empties_stripped_seq(stmts(old(v)@)));
}

/// The bytecode labels in `s`.
pub open spec fn ids_in(s: StmtV) -> Set<u32> {
    Set::new(|v: u32| defines_id(s, v))
}

/// `s` with the jumps to labels that it nowhere defines demoted.
pub open spec fn undefined_demoted(s: StmtV) -> StmtV {
    empties_stripped(jumps_demoted(s, labels_in(s), ids_in(s), false))
}

/// Demotes the jumps to labels that `s` nowhere defines.
pub fn demote_undefined_label_jumps(s: &mut Stmt)
    ensures
        final(s)@ == undefined_demoted(old(s)@),
{
    let mut defined: Vec<String> = Vec::new();
    assert(strs(defined@) =~= seq![]);
    collect_labels(s, &mut defined);
    assert(strs(defined@) =~= labels_in(s@));
    let mut ids: HashSet<u32> = HashSet::new();
    collect_label_ids(s, &mut ids);
    assert(ids@ =~= ids_in(s@));
    fix_stmt(s, &defined, &ids, false);
    strip_empty(s);
}

// ---------------------------------------------------------------------
// Law: no undefined jump is left.

/// `s` holds a jump to a target that is not defined.
pub open spec fn jumps_out(s: StmtV, defined: Seq<Seq<char>>, ids: Set<u32>) -> bool
    decreases s,
{
    match s {
        StmtV::Block(items) => jumps_out_seq(items, defined, ids),
        StmtV::If { then_stmt, else_stmt, .. } => jumps_out(*then_stmt, defined, ids)
            || jumps_out_opt(else_stmt, defined, ids),
        StmtV::While { body, .. } => jumps_out(*body, defined, ids),
        StmtV::DoWhile { body, .. } => jumps_out(*body, defined, ids),
        StmtV::For { init, body, .. } => jumps_out_seq(init, defined, ids)
            || jumps_out(*body, defined, ids),
        StmtV::ForEach { body, .. } => jumps_out(*body, defined, ids),
        StmtV::Switch { cases, default, .. } => jumps_out_cases(cases, defined, ids)
            || jumps_out_opt(default, defined, ids),
        StmtV::Try { body, catches, finally } => jumps_out(*body, defined, ids)
            || jumps_out_catches(catches, defined, ids) || jumps_out_opt(finally, defined, ids),
        StmtV::TryWithResources { resources, body, catches, finally } => jumps_out_seq(
            resources,
            defined,
            ids,
        )
            || jumps_out(*body, defined, ids) || jumps_out_catches(catches, defined, ids)
            || jumps_out_opt(finally, defined, ids),
        StmtV::Synchronized { body, .. } => jumps_out(*body, defined, ids),
        StmtV::Goto(_) => undefined_jump(s, defined, ids),
        StmtV::Labeled { body, .. } => jumps_out(*body, defined, ids),
        StmtV::Break(_) => undefined_jump(s, defined, ids),
        StmtV::Continue(_) => undefined_jump(s, defined, ids),
        _ => false,
    }
}

/// [`jumps_out`] where there is a value.
pub open spec fn jumps_out_opt(
    o: Option<Box<StmtV>>,
    defined: Seq<Seq<char>>,
    ids: Set<u32>,
) -> bool
    decreases o,
{
    match o {
        Some(x) => jumps_out(*x, defined, ids),
        None => false,
    }
}

/// [`jumps_out`] over a list.
pub open spec fn jumps_out_seq(l: Seq<StmtV>, defined: Seq<Seq<char>>, ids: Set<u32>) -> bool
    decreases l,
{
    exists|i: int| 0 <= i < l.len() && jumps_out(#[trigger] l[i], defined, ids)
}

/// [`jumps_out`] inside a switch arm.
pub open spec fn jumps_out_case(c: CaseGroupV, defined: Seq<Seq<char>>, ids: Set<u32>) -> bool
    decreases c,
{
    jumps_out_seq(c.body, defined, ids)
}

/// [`jumps_out`] over a list.
pub open spec fn jumps_out_cases(l: Seq<CaseGroupV>, defined: Seq<Seq<char>>, ids: Set<u32>) -> bool
    decreases l,
{
    exists|i: int| 0 <= i < l.len() && jumps_out_case(#[trigger] l[i], defined, ids)
}

/// [`jumps_out`] inside a catch clause.
pub open spec fn jumps_out_catch(c: CatchV, defined: Seq<Seq<char>>, ids: Set<u32>) -> bool
    decreases c,
{
    jumps_out(*c.body, defined, ids)
}

/// [`jumps_out`] over a list.
pub open spec fn jumps_out_catches(l: Seq<CatchV>, defined: Seq<Seq<char>>, ids: Set<u32>) -> bool
    decreases l,
{
    exists|i: int| 0 <= i < l.len() && jumps_out_catch(#[trigger] l[i], defined, ids)
}

/// No undefined jump is left.
proof fn lemma_demoted(s: StmtV, defined: Seq<Seq<char>>, ids: Set<u32>, in_loop: bool)
    ensures
        !jumps_out(jumps_demoted(s, defined, ids, in_loop), defined, ids),
    decreases stmt_size(s), 0nat,
{
    assert(!jumps_out_seq(seq![], defined, ids));
    assert(!jumps_out(empty_block(), defined, ids));
    assert(!jumps_out(StmtV::Break(None), defined, ids));
    assert(!jumps_out(StmtV::Continue(None), defined, ids));
    match s {
        StmtV::Block(items) => { lemma_demoted_list(items, defined, ids, in_loop); },
        StmtV::If { then_stmt, else_stmt, .. } => {
            lemma_demoted(*then_stmt, defined, ids, in_loop);
            lemma_demoted_opt(else_stmt, defined, ids, in_loop);
        },
        StmtV::While { body, .. } => { lemma_demoted(*body, defined, ids, true); },
        StmtV::DoWhile { body, .. } => { lemma_demoted(*body, defined, ids, true); },
        StmtV::For { init, body, .. } => {
            lemma_demoted_seq(init, defined, ids, in_loop);
            lemma_demoted(*body, defined, ids, true);
        },
        StmtV::ForEach { body, .. } => { lemma_demoted(*body, defined, ids, true); },
        StmtV::Switch { cases, default, .. } => {
            lemma_demoted_cases(cases, defined, ids, true);
            lemma_demoted_opt(default, defined, ids, true);
        },
        StmtV::Try { body, catches, finally } => {
            lemma_demoted(*body, defined, ids, in_loop);
            lemma_demoted_catches(catches, defined, ids, in_loop);
            lemma_demoted_opt(finally, defined, ids, in_loop);
        },
        StmtV::TryWithResources { resources, body, catches, finally } => {
            lemma_demoted_seq(resources, defined, ids, in_loop);
            lemma_demoted(*body, defined, ids, in_loop);
            lemma_demoted_catches(catches, defined, ids, in_loop);
            lemma_demoted_opt(finally, defined, ids, in_loop);
        },
        StmtV::Synchronized { body, .. } => { lemma_demoted(*body, defined, ids, in_loop);  },
        StmtV::Labeled { body, .. } => { lemma_demoted(*body, defined, ids, in_loop);  },
        _ => {},
    }
}

/// [`lemma_demoted`] where there is a statement.
proof fn lemma_demoted_opt(
    o: Option<Box<StmtV>>,
    defined: Seq<Seq<char>>,
    ids: Set<u32>,
    in_loop: bool,
)
    ensures
        !jumps_out_opt(jumps_demoted_opt(o, defined, ids, in_loop), defined, ids),
    decreases opt_stmt_size(o), 0nat,
{
    if let Some(x) = o {
        lemma_demoted(*x, defined, ids, in_loop);
    }
}

/// [`lemma_demoted`] over a list.
proof fn lemma_demoted_seq(v: Seq<StmtV>, defined: Seq<Seq<char>>, ids: Set<u32>, in_loop: bool)
    ensures
        !jumps_out_seq(jumps_demoted_seq(v, defined, ids, in_loop), defined, ids),
    decreases stmts_size(v), 0nat,
{
    if v.len() > 0 {
        lemma_demoted_seq(v.drop_last(), defined, ids, in_loop);
        lemma_demoted(v.last(), defined, ids, in_loop);
        let w = jumps_demoted_seq(v, defined, ids, in_loop);
        let front = jumps_demoted_seq(v.drop_last(), defined, ids, in_loop);
        assert(w =~= front.push(jumps_demoted(v.last(), defined, ids, in_loop)));
        assert forall|i: int|
            0 <= i < w.len() implies !jumps_out(#[trigger] w[i], defined, ids) by {
            if i < front.len() {
                assert(!jumps_out(front[i], defined, ids));
            }
        }
    } else {
        assert(jumps_demoted_seq(v, defined, ids, in_loop) =~= seq![]);
    }
}

/// [`lemma_demoted`] over switch arms.
proof fn lemma_demoted_cases(
    v: Seq<CaseGroupV>,
    defined: Seq<Seq<char>>,
    ids: Set<u32>,
    in_loop: bool,
)
    ensures
        !jumps_out_cases(jumps_demoted_cases(v, defined, ids, in_loop), defined, ids),
    decreases cases_size(v), 0nat,
{
    if v.len() > 0 {
        lemma_demoted_cases(v.drop_last(), defined, ids, in_loop);
        lemma_demoted_case(v.last(), defined, ids, in_loop);
        let w = jumps_demoted_cases(v, defined, ids, in_loop);
        let front = jumps_demoted_cases(v.drop_last(), defined, ids, in_loop);
        assert(w =~= front.push(jumps_demoted_case(v.last(), defined, ids, in_loop)));
        assert forall|i: int|
            0 <= i < w.len() implies !jumps_out_case(#[trigger] w[i], defined, ids) by {
            if i < front.len() {
                assert(!jumps_out_case(front[i], defined, ids));
            }
        }
    } else {
        assert(jumps_demoted_cases(v, defined, ids, in_loop) =~= seq![]);
    }
}

/// [`lemma_demoted`] inside a switch arm.
proof fn lemma_demoted_case(c: CaseGroupV, defined: Seq<Seq<char>>, ids: Set<u32>, in_loop: bool)
    ensures
        !jumps_out_case(jumps_demoted_case(c, defined, ids, in_loop), defined, ids),
    decreases case_size(c), 0nat,
{
    lemma_demoted_list(c.body, defined, ids, in_loop);
}

/// [`lemma_demoted`] over catch clauses.
proof fn lemma_demoted_catches(
    v: Seq<CatchV>,
    defined: Seq<Seq<char>>,
    ids: Set<u32>,
    in_loop: bool,
)
    ensures
        !jumps_out_catches(jumps_demoted_catches(v, defined, ids, in_loop), defined, ids),
    decreases catches_size(v), 0nat,
{
    if v.len() > 0 {
        lemma_demoted_catches(v.drop_last(), defined, ids, in_loop);
        lemma_demoted_catch(v.last(), defined, ids, in_loop);
        let w = jumps_demoted_catches(v, defined, ids, in_loop);
        let front = jumps_demoted_catches(v.drop_last(), defined, ids, in_loop);
        assert(w =~= front.push(jumps_demoted_catch(v.last(), defined, ids, in_loop)));
        assert forall|i: int|
            0 <= i < w.len() implies !jumps_out_catch(#[trigger] w[i], defined, ids) by {
            if i < front.len() {
                assert(!jumps_out_catch(front[i], defined, ids));
            }
        }
    } else {
        assert(jumps_demoted_catches(v, defined, ids, in_loop) =~= seq![]);
    }
}

/// [`lemma_demoted`] inside a catch clause.
proof fn lemma_demoted_catch(c: CatchV, defined: Seq<Seq<char>>, ids: Set<u32>, in_loop: bool)
    ensures
        !jumps_out_catch(jumps_demoted_catch(c, defined, ids, in_loop), defined, ids),
    decreases catch_size(c), 0nat,
{
    lemma_demoted(*c.body, defined, ids, in_loop);
}

/// No undefined jump is left in a list.
proof fn lemma_demoted_list(v: Seq<StmtV>, defined: Seq<Seq<char>>, ids: Set<u32>, in_loop: bool)
    ensures
        !jumps_out_seq(jumps_demoted_list(v, defined, ids, in_loop), defined, ids),
    decreases stmts_size(v), 1nat,
{
    if v.len() > 0 {
        let front = jumps_demoted_seq(v.drop_last(), defined, ids, in_loop);
        lemma_demoted_seq(v.drop_last(), defined, ids, in_loop);
        let w = jumps_demoted_list(v, defined, ids, in_loop);
        if !is_loose_end(v.last(), defined, ids, in_loop) {
            let t = tail_folded(v.last(), defined, ids);
            lemma_tail_folded_size(v.last(), defined, ids);
            lemma_demoted(t, defined, ids, in_loop);
            let x = jumps_demoted(t, defined, ids, in_loop);
            assert(w == front.push(x));
            assert forall|i: int|
                0 <= i < w.len() implies !jumps_out(#[trigger] w[i], defined, ids) by {
                if i < front.len() {
                    assert(!jumps_out(front[i], defined, ids));
                }
            }
        }
    }
}

/// Dropping empty blocks leaves no undefined jump where there was none.
proof fn lemma_stripped_jumps(s: StmtV, defined: Seq<Seq<char>>, ids: Set<u32>)
    requires
        !jumps_out(s, defined, ids),
    ensures
        !jumps_out(empties_stripped(s), defined, ids),
    decreases s,
{
    if let StmtV::Block(v) = s {
        let w = empties_stripped_seq(v);
        assert(!jumps_out_seq(v, defined, ids));
        assert forall|i: int|
            0 <= i < w.len() implies !jumps_out(#[trigger] w[i], defined, ids) by {
            let x = v[i];
            assert(!jumps_out(x, defined, ids));
            lemma_stripped_jumps(v[i], defined, ids);
        }
        lemma_nonempty_jumps(w, defined, ids);
    }
}

/// Dropping empty blocks from a list leaves no undefined jump where there was none.
proof fn lemma_nonempty_jumps(v: Seq<StmtV>, defined: Seq<Seq<char>>, ids: Set<u32>)
    requires
        forall|i: int| 0 <= i < v.len() ==> !jumps_out(#[trigger] v[i], defined, ids),
    ensures
        !jumps_out_seq(nonempty(v), defined, ids),
    decreases v.len(),
{
    if v.len() > 0 {
        assert forall|i: int| 0 <= i < v.len() - 1 implies !jumps_out(
            #[trigger] v.drop_last()[i],
            defined,
            ids,
        ) by {
            assert(!jumps_out(v[i], defined, ids));
        }
        lemma_nonempty_jumps(v.drop_last(), defined, ids);
        let front = nonempty(v.drop_last());
        assert forall|i: int| 0 <= i < nonempty(v).len() implies !jumps_out(
            #[trigger] nonempty(v)[i],
            defined,
            ids,
        ) by {
            if i < front.len() {
                assert(!jumps_out(front[i], defined, ids));
            } else {
                assert(!jumps_out(v[v.len() - 1], defined, ids));
            }
        }
    }
}

/// After demotion every jump goes to a label that the statement defined.
pub proof fn law_no_undefined_jump(s: StmtV)
    ensures
        !jumps_out(undefined_demoted(s), labels_in(s), ids_in(s)),
{
    lemma_demoted(s, labels_in(s), ids_in(s), false);
    lemma_stripped_jumps(
        jumps_demoted(s, labels_in(s), ids_in(s), false),
        labels_in(s),
        ids_in(s),
    );
}

// ---------------------------------------------------------------------
// Breaks right after the loop that they name.

/// A loop.
pub open spec fn is_loop(s: StmtV) -> bool {
    s is While || s is DoWhile || s is For || s is ForEach
}

/// Whether `s` is a loop.
fn loop_stmt(s: &Stmt) -> (r: bool)
    ensures
        r == is_loop(s@),
{
    matches!(s, Stmt::While { .. } | Stmt::DoWhile { .. } | Stmt::For { .. } | Stmt::ForEach { .. })
}

/// The label of a labelled loop.
pub open spec fn loop_label(s: StmtV) -> Option<Seq<char>> {
    match s {
        StmtV::Labeled { label, body } => if is_loop(unwrap_single(*body)) {
            Some(label)
        } else {
            None
        },
        _ => None,
    }
}

/// `s` is only a `break` to `label`.
pub open spec fn breaks_to(s: StmtV, label: Seq<char>) -> bool {
    unwrap_single(s) == StmtV::Break(Some(label))
}

/// Whether `s` is only a `break` to `label`.
fn is_break_of(s: &Stmt, label: &str) -> (r: bool)
    ensures
        r == breaks_to(s@, label@),
{
    match single(s) {
        Stmt::Break(l) => match l {
            Some(n) => str_eq(n.as_str(), label),
            None => false,
        },
        _ => false,
    }
}

/// `v` without the breaks to `label` at its front.
pub open spec fn breaks_skipped(v: Seq<StmtV>, label: Option<Seq<char>>) -> Seq<StmtV>
    decreases v.len(),
{
    match label {
        Some(l) => if v.len() > 0 && breaks_to(v[0], l) {
            breaks_skipped(v.skip(1), label)
        } else {
            v
        },
        None => v,
    }
}

/// A list without the breaks right after the loop that they name.
pub open spec fn loop_breaks_dropped(rest: Seq<StmtV>) -> Seq<StmtV>
    decreases rest.len()
    via loop_breaks_dropped_decreases
{
    if rest.len() == 0 {
        rest
    } else {
        seq![rest[0]] + loop_breaks_dropped(breaks_skipped(rest.skip(1), loop_label(rest[0])))
    }
}

/// Skipping does not lengthen a list, nor add to its size.
proof fn lemma_breaks_skipped(v: Seq<StmtV>, label: Option<Seq<char>>)
    ensures
        breaks_skipped(v, label).len() <= v.len(),
        stmts_size(breaks_skipped(v, label)) <= stmts_size(v),
    decreases v.len(),
{
    if label is Some && v.len() > 0 && breaks_to(v[0], label.unwrap()) {
        lemma_breaks_skipped(v.skip(1), label);
        lemma_stmts_size_first(v);
    }
}

#[via_fn]
proof fn loop_breaks_dropped_decreases(rest: Seq<StmtV>) {
    if rest.len() > 0 {
        lemma_breaks_skipped(rest.skip(1), loop_label(rest[0]));
    }
}

/// Dropping breaks does not add to the size.
proof fn lemma_loop_breaks_size(rest: Seq<StmtV>)
    ensures
        stmts_size(loop_breaks_dropped(rest)) <= stmts_size(rest),
    decreases rest.len(),
{
    if rest.len() > 0 {
        let after = breaks_skipped(rest.skip(1), loop_label(rest[0]));
        lemma_breaks_skipped(rest.skip(1), loop_label(rest[0]));
        lemma_loop_breaks_size(after);
        lemma_stmts_size_first(rest);
        let r = loop_breaks_dropped(rest);
        lemma_stmts_size_first(r);
        assert(r.skip(1) =~= loop_breaks_dropped(after));
    }
}

/// A list inside a statement labelled `label`, without the breaks to it right
/// after a loop.
pub open spec fn own_breaks_dropped(rest: Seq<StmtV>, label: Seq<char>) -> Seq<StmtV>
    decreases rest.len()
    via own_breaks_dropped_decreases
{
    if rest.len() == 0 {
        rest
    } else {
        let l = if is_loop(unwrap_single(rest[0])) {
            Some(label)
        } else {
            None
        };
        seq![rest[0]] + own_breaks_dropped(breaks_skipped(rest.skip(1), l), label)
    }
}

#[via_fn]
proof fn own_breaks_dropped_decreases(rest: Seq<StmtV>, label: Seq<char>) {
    if rest.len() > 0 {
        lemma_breaks_skipped(rest.skip(1), Some(label));
        lemma_breaks_skipped(rest.skip(1), None);
    }
}

/// Dropping breaks does not add to the size.
proof fn lemma_own_breaks_size(rest: Seq<StmtV>, label: Seq<char>)
    ensures
        stmts_size(own_breaks_dropped(rest, label)) <= stmts_size(rest),
    decreases rest.len(),
{
    if rest.len() > 0 {
        let l = if is_loop(unwrap_single(rest[0])) {
            Some(label)
        } else {
            None
        };
        let after = breaks_skipped(rest.skip(1), l);
        lemma_breaks_skipped(rest.skip(1), l);
        lemma_own_breaks_size(after, label);
        lemma_stmts_size_first(rest);
        let r = own_breaks_dropped(rest, label);
        lemma_stmts_size_first(r);
        assert(r.skip(1) =~= own_breaks_dropped(after, label));
    }
}

/// The body of a statement labelled `label`, without the breaks to it right after
/// a loop.
pub open spec fn label_body(body: StmtV, label: Seq<char>) -> StmtV {
    match body {
        StmtV::Block(v) => StmtV::Block(own_breaks_dropped(v, label)),
        _ => body,
    }
}

/// Removes, from `at` on, the breaks to `label`.
#[verifier::loop_isolation(false)]
fn skip_breaks(v: &mut Vec<Stmt>, at: usize, label: &str)
    requires
        at <= old(v).len(),
    ensures
        at <= final(v).len() <= old(v).len(),
        final(v)@.take(at as int) == old(v)@.take(at as int),
        stmts(final(v)@.skip(at as int)) == breaks_skipped(
            stmts(old(v)@.skip(at as int)),
            Some(label@),
        ),
{
    let ghost goal = breaks_skipped(stmts(v@.skip(at as int)), Some(label@));
    while at < v.len() && is_break_of(&v[at], label)
        invariant
            at <= v.len() <= old(v).len(),
            v@.take(at as int) == old(v)@.take(at as int),
            breaks_skipped(stmts(v@.skip(at as int)), Some(label@)) == goal,
        decreases v.len(),
    {
        let ghost rest = stmts(v@.skip(at as int));
        let ghost before = v@;
        assert(rest[0] == v@[at as int]@);
        v.remove(at);
        assert(v@.take(at as int) =~= before.take(at as int));
        assert(v@.skip(at as int) =~= before.skip(at + 1));
        assert(stmts(v@.skip(at as int)) =~= rest.skip(1));
    }
    if at < v.len() {
        assert(stmts(v@.skip(at as int))[0] == v@[at as int]@);
    }
}

/// Drops the breaks right after the loop that they name.
#[verifier::loop_isolation(false)]
#[verifier::spinoff_prover]
fn drop_loop_breaks(v: &mut Vec<Stmt>)
    ensures
        stmts(final(v)@) == loop_breaks_dropped(stmts(old(v)@)),
{
    let ghost goal = loop_breaks_dropped(stmts(v@));
    let mut i: usize = 0;
    assert(v@.skip(0) =~= v@);
    assert(stmts(v@.take(0)) + goal =~= goal);
    while i < v.len()
        invariant
            i <= v.len(),
            stmts(v@.take(i as int)) + loop_breaks_dropped(stmts(v@.skip(i as int))) == goal,
        decreases v.len() - i,
    {
        let ghost rest = stmts(v@.skip(i as int));
        let ghost done = stmts(v@.take(i as int));
        let ghost before = v@;
        assert(rest[0] == v@[i as int]@);
        assert(v@.skip(i + 1) =~= v@.skip(i as int).skip(1));
        assert(stmts(v@.skip(i + 1)) =~= rest.skip(1));
        let ghost label = loop_label(rest[0]);
        if let Some(l) = label_of(&v[i]) {
            let l = l.clone();
            skip_breaks(v, i + 1, l.as_str());
        }
        assert(stmts(v@.skip(i + 1)) == breaks_skipped(rest.skip(1), label));
        assert(v@[i as int] == before[i as int]) by {
            assert(v@.take(i + 1)[i as int] == before.take(i + 1)[i as int]);
        }
        assert(stmts(v@.take(i + 1)) =~= done.push(rest[0])) by {
            assert(v@.take(i + 1) == before.take(i + 1));
        }
        assert(done
            + (seq![rest[0]] + loop_breaks_dropped(stmts(v@.skip(i + 1)))) =~= done.push(rest[0])
            + loop_breaks_dropped(stmts(v@.skip(i + 1))));
        i += 1;
    }
    assert(v@.take(i as int) =~= v@);
    assert(stmts(v@.skip(i as int)) =~= seq![]);
    assert(stmts(v@) + Seq::<StmtV>::empty() =~= stmts(v@));
}

/// Drops the breaks to `label` right after a loop.
#[verifier::loop_isolation(false)]
#[verifier::spinoff_prover]
fn drop_own_breaks(v: &mut Vec<Stmt>, label: &str)
    ensures
        stmts(final(v)@) == own_breaks_dropped(stmts(old(v)@), label@),
{
    let ghost goal = own_breaks_dropped(stmts(v@), label@);
    let mut i: usize = 0;
    assert(v@.skip(0) =~= v@);
    assert(stmts(v@.take(0)) + goal =~= goal);
    while i < v.len()
        invariant
            i <= v.len(),
            stmts(v@.take(i as int)) + own_breaks_dropped(stmts(v@.skip(i as int)), label@) == goal,
        decreases v.len() - i,
    {
        let ghost rest = stmts(v@.skip(i as int));
        let ghost done = stmts(v@.take(i as int));
        let ghost before = v@;
        assert(rest[0] == v@[i as int]@);
        assert(v@.skip(i + 1) =~= v@.skip(i as int).skip(1));
        assert(stmts(v@.skip(i + 1)) =~= rest.skip(1));
        let ghost name = if is_loop(unwrap_single(rest[0])) { Some(label@) } else { None };
        if loop_stmt(single(&v[i])) {
            skip_breaks(v, i + 1, label);
        }
        assert(stmts(v@.skip(i + 1)) == breaks_skipped(rest.skip(1), name));
        assert(v@[i as int] == before[i as int]) by {
            assert(v@.take(i + 1)[i as int] == before.take(i + 1)[i as int]);
        }
        assert(stmts(v@.take(i + 1)) =~= done.push(rest[0])) by {
            assert(v@.take(i + 1) == before.take(i + 1));
        }
        assert(done
            + (seq![rest[0]] + own_breaks_dropped(stmts(v@.skip(i + 1)), label@)) =~= done.push(
                rest[0]
            )
            + own_breaks_dropped(stmts(v@.skip(i + 1)), label@));
        i += 1;
    }
    assert(v@.take(i as int) =~= v@);
    assert(stmts(v@.skip(i as int)) =~= seq![]);
    assert(stmts(v@) + Seq::<StmtV>::empty() =~= stmts(v@));
}

/// The label of a labelled loop.
fn label_of(s: &Stmt) -> (r: Option<&String>)
    ensures
        match r {
            Some(l) => loop_label(s@) == Some(l@),
            None => loop_label(s@) is None,
        },
{
    match s {
        Stmt::Labeled { label, body } => if loop_stmt(single(body)) {
            Some(label)
        } else {
            None
        },
        _ => None,
    }
}

/// Drops the breaks to `label` from its body.
fn clean_label_body(body: &mut Stmt, label: &str)
    ensures
        final(body)@ == label_body(old(body)@, label@),
{
    if let Stmt::Block(v) = body {
        drop_own_breaks(v, label);
    }
}

/// A label's body without breaks to it is not larger.
proof fn lemma_label_body_size(body: StmtV, label: Seq<char>)
    ensures
        stmt_size(label_body(body, label)) <= stmt_size(body),
{
    if let StmtV::Block(v) = body {
        lemma_own_breaks_size(v, label);
    }
}

/// A list without the breaks right after the loop that they name, its statements
/// pruned inside.
pub open spec fn breaks_pruned_list(v: Seq<StmtV>) -> Seq<StmtV>
    decreases stmts_size(v), 1nat
    via breaks_pruned_list_decreases
{
    breaks_pruned_seq(loop_breaks_dropped(v))
}

#[via_fn]
proof fn breaks_pruned_list_decreases(v: Seq<StmtV>) {
    lemma_loop_breaks_size(v);
}

/// `s` without the labelled `break`s that stand right after the loop that they name.
pub open spec fn breaks_pruned(s: StmtV) -> StmtV
    decreases stmt_size(s), 0nat
    via breaks_pruned_decreases
{
    match s {
        StmtV::Block(items) => StmtV::Block(breaks_pruned_list(items)),
        StmtV::If { cond, then_stmt, else_stmt } => StmtV::If {
            cond,
            then_stmt: Box::new(breaks_pruned(*then_stmt)),
            else_stmt: breaks_pruned_opt(else_stmt),
        },
        StmtV::While { cond, body } => StmtV::While { cond, body: Box::new(breaks_pruned(*body)) },
        StmtV::DoWhile { body, cond } => StmtV::DoWhile {
            body: Box::new(breaks_pruned(*body)),
            cond,
        },
        StmtV::For { init, cond, update, body } => StmtV::For {
            init: breaks_pruned_seq(init),
            cond,
            update,
            body: Box::new(breaks_pruned(*body)),
        },
        StmtV::ForEach { var, iterable, is_array, body } => StmtV::ForEach {
            var,
            iterable,
            is_array,
            body: Box::new(breaks_pruned(*body)),
        },
        StmtV::Switch { selector, cases, default, on_string } => StmtV::Switch {
            selector,
            cases: breaks_pruned_cases(cases),
            default: breaks_pruned_opt(default),
            on_string,
        },
        StmtV::Try { body, catches, finally } => StmtV::Try {
            body: Box::new(breaks_pruned(*body)),
            catches: breaks_pruned_catches(catches),
            finally: breaks_pruned_opt(finally),
        },
        StmtV::TryWithResources { resources, body, catches, finally } => StmtV::TryWithResources {
            resources: breaks_pruned_seq(resources),
            body: Box::new(breaks_pruned(*body)),
            catches: breaks_pruned_catches(catches),
            finally: breaks_pruned_opt(finally),
        },
        StmtV::Synchronized { lock, body } => StmtV::Synchronized {
            lock,
            body: Box::new(breaks_pruned(*body)),
        },
        StmtV::Labeled { label, body } => StmtV::Labeled {
            label,
            body: Box::new(breaks_pruned(label_body(*body, label))),
        },
        _ => s,
    }
}

/// [`breaks_pruned`] where there is a value.
pub open spec fn breaks_pruned_opt(o: Option<Box<StmtV>>) -> Option<Box<StmtV>>
    decreases opt_stmt_size(o), 0nat,
{
    match o {
        Some(x) => Some(Box::new(breaks_pruned(*x))),
        None => None,
    }
}

/// [`breaks_pruned`] over a list.
pub open spec fn breaks_pruned_seq(v: Seq<StmtV>) -> Seq<StmtV>
    decreases stmts_size(v), 0nat,
{
    if v.len() == 0 {
        seq![]
    } else {
        breaks_pruned_seq(v.drop_last()).push(breaks_pruned(v.last()))
    }
}

/// [`breaks_pruned`] inside a switch arm.
pub open spec fn breaks_pruned_case(c: CaseGroupV) -> CaseGroupV
    decreases case_size(c), 0nat,
{
    CaseGroupV { body: breaks_pruned_list(c.body), ..c }
}

/// [`breaks_pruned`] over a list.
pub open spec fn breaks_pruned_cases(v: Seq<CaseGroupV>) -> Seq<CaseGroupV>
    decreases cases_size(v), 0nat,
{
    if v.len() == 0 {
        seq![]
    } else {
        breaks_pruned_cases(v.drop_last()).push(breaks_pruned_case(v.last()))
    }
}

/// [`breaks_pruned`] inside a catch clause.
pub open spec fn breaks_pruned_catch(c: CatchV) -> CatchV
    decreases catch_size(c), 0nat,
{
    CatchV { body: Box::new(breaks_pruned(*c.body)), ..c }
}

/// [`breaks_pruned`] over a list.
pub open spec fn breaks_pruned_catches(v: Seq<CatchV>) -> Seq<CatchV>
    decreases catches_size(v), 0nat,
{
    if v.len() == 0 {
        seq![]
    } else {
        breaks_pruned_catches(v.drop_last()).push(breaks_pruned_catch(v.last()))
    }
}

/// Drops labelled `break`s that stand right after the loop that they name.
pub fn prune_post_loop_label_breaks(s: &mut Stmt)
    ensures
        final(s)@ == breaks_pruned(old(s)@),
    decreases stmt_size(old(s)@), 0nat,
{
    match s {
        Stmt::Block(items) => prune_in(items),
        Stmt::If { then_stmt, else_stmt, .. } => {
            prune_post_loop_label_breaks(then_stmt);
            prune_post_loop_label_breaks_opt(else_stmt);
        },
        Stmt::While { body, .. } => { prune_post_loop_label_breaks(body); },
        Stmt::DoWhile { body, .. } => { prune_post_loop_label_breaks(body); },
        Stmt::For { init, body, .. } => {
            prune_post_loop_label_breaks_vec(init);
            prune_post_loop_label_breaks(body);
        },
        Stmt::ForEach { body, .. } => { prune_post_loop_label_breaks(body); },
        Stmt::Switch { cases, default, .. } => {
            prune_post_loop_label_breaks_cases(cases);
            prune_post_loop_label_breaks_opt(default);
        },
        Stmt::Try { body, catches, finally } => {
            prune_post_loop_label_breaks(body);
            prune_post_loop_label_breaks_catches(catches);
            prune_post_loop_label_breaks_opt(finally);
        },
        Stmt::TryWithResources { resources, body, catches, finally } => {
            prune_post_loop_label_breaks_vec(resources);
            prune_post_loop_label_breaks(body);
            prune_post_loop_label_breaks_catches(catches);
            prune_post_loop_label_breaks_opt(finally);
        },
        Stmt::Synchronized { body, .. } => { prune_post_loop_label_breaks(body); },
        Stmt::Labeled { label, body } => {
            proof { lemma_label_body_size(body@, label@); }
            clean_label_body(body, label.as_str());
            prune_post_loop_label_breaks(body);
        },
        _ => {},
    }
}

/// `prune_post_loop_label_breaks` where there is a value.
pub fn prune_post_loop_label_breaks_opt(o: &mut Option<Box<Stmt>>)
    ensures
        opt_stmt(*final(o)) == breaks_pruned_opt(opt_stmt(*old(o))),
    decreases opt_stmt_size(opt_stmt(*old(o))), 0nat,
{
    if let Some(x) = o {
        prune_post_loop_label_breaks(x);
    }
}

/// `prune_post_loop_label_breaks` over a list.
#[verifier::loop_isolation(false)]
pub fn prune_post_loop_label_breaks_vec(v: &mut Vec<Stmt>)
    ensures
        stmts(final(v)@) == breaks_pruned_seq(stmts(old(v)@)),
    decreases stmts_size(stmts(old(v)@)), 0nat,
{
    let ghost all = stmts(v@);
    let mut i: usize = 0;
    assert(stmts(v@.take(0)) =~= seq![]);
    while i < v.len()
        invariant
            i <= v.len(),
            v.len() == old(v).len(),
            stmts(v@.take(i as int)) == breaks_pruned_seq(all.take(i as int)),
            forall|j: int| i <= j < v.len() ==> #[trigger] v@[j] == old(v)@[j],
        decreases v.len() - i,
    {
        let ghost before = stmts(v@.take(i as int));
        assert(all.take(i + 1).drop_last() =~= all.take(i as int));
        assert(all.take(i + 1).last() == v@[i as int]@);
        proof {
            lemma_stmts_size(stmts(old(v)@), i as int);
        }
        prune_post_loop_label_breaks(&mut v[i]);
        i += 1;
        assert(stmts(v@.take(i as int)) =~= before.push(v@[i - 1]@));
    }
    assert(v@.take(i as int) =~= v@);
    assert(all.take(i as int) =~= all);
}

/// `prune_post_loop_label_breaks` inside a switch arm.
pub fn prune_post_loop_label_breaks_case(c: &mut CaseGroup)
    ensures
        final(c)@ == breaks_pruned_case(old(c)@),
    decreases case_size(old(c)@), 0nat,
{
    prune_in(&mut c.body);
}

/// `prune_post_loop_label_breaks` over a list.
#[verifier::loop_isolation(false)]
pub fn prune_post_loop_label_breaks_cases(v: &mut Vec<CaseGroup>)
    ensures
        case_groups(final(v)@) == breaks_pruned_cases(case_groups(old(v)@)),
    decreases cases_size(case_groups(old(v)@)), 0nat,
{
    let ghost all = case_groups(v@);
    let mut i: usize = 0;
    assert(case_groups(v@.take(0)) =~= seq![]);
    while i < v.len()
        invariant
            i <= v.len(),
            v.len() == old(v).len(),
            case_groups(v@.take(i as int)) == breaks_pruned_cases(all.take(i as int)),
            forall|j: int| i <= j < v.len() ==> #[trigger] v@[j] == old(v)@[j],
        decreases v.len() - i,
    {
        let ghost before = case_groups(v@.take(i as int));
        assert(all.take(i + 1).drop_last() =~= all.take(i as int));
        assert(all.take(i + 1).last() == v@[i as int]@);
        proof {
            lemma_cases_size(case_groups(old(v)@), i as int);
        }
        prune_post_loop_label_breaks_case(&mut v[i]);
        i += 1;
        assert(case_groups(v@.take(i as int)) =~= before.push(v@[i - 1]@));
    }
    assert(v@.take(i as int) =~= v@);
    assert(all.take(i as int) =~= all);
}

/// `prune_post_loop_label_breaks` inside a catch clause.
pub fn prune_post_loop_label_breaks_catch(c: &mut Catch)
    ensures
        final(c)@ == breaks_pruned_catch(old(c)@),
    decreases catch_size(old(c)@), 0nat,
{
    prune_post_loop_label_breaks(&mut c.body);
}

/// `prune_post_loop_label_breaks` over a list.
#[verifier::loop_isolation(false)]
pub fn prune_post_loop_label_breaks_catches(v: &mut Vec<Catch>)
    ensures
        catch_list(final(v)@) == breaks_pruned_catches(catch_list(old(v)@)),
    decreases catches_size(catch_list(old(v)@)), 0nat,
{
    let ghost all = catch_list(v@);
    let mut i: usize = 0;
    assert(catch_list(v@.take(0)) =~= seq![]);
    while i < v.len()
        invariant
            i <= v.len(),
            v.len() == old(v).len(),
            catch_list(v@.take(i as int)) == breaks_pruned_catches(all.take(i as int)),
            forall|j: int| i <= j < v.len() ==> #[trigger] v@[j] == old(v)@[j],
        decreases v.len() - i,
    {
        let ghost before = catch_list(v@.take(i as int));
        assert(all.take(i + 1).drop_last() =~= all.take(i as int));
        assert(all.take(i + 1).last() == v@[i as int]@);
        proof {
            lemma_catches_size(catch_list(old(v)@), i as int);
        }
        prune_post_loop_label_breaks_catch(&mut v[i]);
        i += 1;
        assert(catch_list(v@.take(i as int)) =~= before.push(v@[i - 1]@));
    }
    assert(v@.take(i as int) =~= v@);
    assert(all.take(i as int) =~= all);
}

#[via_fn]
proof fn breaks_pruned_decreases(s: StmtV) {
    if let StmtV::Labeled { label, body } = s {
        lemma_label_body_size(*body, label);
    }
}

/// Prunes the statements of a list.
fn prune_in(v: &mut Vec<Stmt>)
    ensures
        stmts(final(v)@) == breaks_pruned_list(stmts(old(v)@)),
    decreases stmts_size(stmts(old(v)@)), 1nat,
{
    proof {
        lemma_loop_breaks_size(stmts(v@));
    }
    drop_loop_breaks(v);
    prune_post_loop_label_breaks_vec(v);
}

} // verus!
