//! Which statements complete abruptly, and the removal of what cannot be reached.
use crate::expr::{opt_expr, ConstVal, ConstValV, Expr, ExprV};
use crate::stmt::{
    case_groups, catch_list, empty_block, no_stmt, opt_stmt, stmts, CaseGroup, CaseGroupV, Catch,
    CatchV, Stmt, StmtV,
};
use crate::types::{opt_str, str_eq};
use vstd::prelude::*;

verus! {

/// A loop condition that is constantly true.
pub open spec fn always(cond: ExprV) -> bool {
    cond == ExprV::Const(ConstValV::Int(1))
}

/// Whether a loop condition is constantly true.
pub fn is_always(cond: &Expr) -> (r: bool)
    ensures
        r == always(cond@),
{
    match cond {
        Expr::Const(ConstVal::Int(i)) => *i == 1,
        _ => false,
    }
}

/// `s` holds a labelled `break`.
pub open spec fn has_labeled_break(s: StmtV) -> bool
    decreases s,
{
    match s {
        StmtV::Block(items) => has_labeled_break_seq(items),
        StmtV::If { then_stmt, else_stmt, .. } => has_labeled_break(*then_stmt)
            || has_labeled_break_opt(else_stmt),
        StmtV::While { body, .. } => has_labeled_break(*body),
        StmtV::DoWhile { body, .. } => has_labeled_break(*body),
        StmtV::For { init, body, .. } => has_labeled_break_seq(init) || has_labeled_break(*body),
        StmtV::ForEach { body, .. } => has_labeled_break(*body),
        StmtV::Switch { cases, default, .. } => has_labeled_break_cases(cases)
            || has_labeled_break_opt(default),
        StmtV::Try { body, catches, finally } => has_labeled_break(*body)
            || has_labeled_break_catches(catches) || has_labeled_break_opt(finally),
        StmtV::TryWithResources { resources, body, catches, finally } => has_labeled_break_seq(
            resources
        )
            || has_labeled_break(*body) || has_labeled_break_catches(catches)
            || has_labeled_break_opt(finally),
        StmtV::Synchronized { body, .. } => has_labeled_break(*body),
        StmtV::Labeled { body, .. } => has_labeled_break(*body),
        StmtV::Break(label) => label is Some,
        _ => false,
    }
}

/// [`has_labeled_break`] where there is a value.
pub open spec fn has_labeled_break_opt(o: Option<Box<StmtV>>) -> bool
    decreases o,
{
    match o {
        Some(x) => has_labeled_break(*x),
        None => false,
    }
}

/// [`has_labeled_break`] over a list.
pub open spec fn has_labeled_break_seq(l: Seq<StmtV>) -> bool
    decreases l,
{
    exists|i: int| 0 <= i < l.len() && has_labeled_break(#[trigger] l[i])
}

/// [`has_labeled_break`] inside a switch arm.
pub open spec fn has_labeled_break_case(c: CaseGroupV) -> bool
    decreases c,
{
    has_labeled_break_seq(c.body)
}

/// [`has_labeled_break`] over a list.
pub open spec fn has_labeled_break_cases(l: Seq<CaseGroupV>) -> bool
    decreases l,
{
    exists|i: int| 0 <= i < l.len() && has_labeled_break_case(#[trigger] l[i])
}

/// [`has_labeled_break`] inside a catch clause.
pub open spec fn has_labeled_break_catch(c: CatchV) -> bool
    decreases c,
{
    has_labeled_break(*c.body)
}

/// [`has_labeled_break`] over a list.
pub open spec fn has_labeled_break_catches(l: Seq<CatchV>) -> bool
    decreases l,
{
    exists|i: int| 0 <= i < l.len() && has_labeled_break_catch(#[trigger] l[i])
}

/// Whether `s` holds a labelled `break`.
pub fn contains_labeled_break(s: &Stmt) -> (r: bool)
    ensures
        r == has_labeled_break(s@),
    decreases s,
{
    match s {
        Stmt::Block(items) => contains_labeled_break_vec(items),
        Stmt::If { then_stmt, else_stmt, .. } => contains_labeled_break(then_stmt)
            || contains_labeled_break_opt(else_stmt),
        Stmt::While { body, .. } => contains_labeled_break(body),
        Stmt::DoWhile { body, .. } => contains_labeled_break(body),
        Stmt::For { init, body, .. } => contains_labeled_break_vec(init)
            || contains_labeled_break(body),
        Stmt::ForEach { body, .. } => contains_labeled_break(body),
        Stmt::Switch { cases, default, .. } => contains_labeled_break_cases(cases)
            || contains_labeled_break_opt(default),
        Stmt::Try { body, catches, finally } => contains_labeled_break(body)
            || contains_labeled_break_catches(catches) || contains_labeled_break_opt(finally),
        Stmt::TryWithResources { resources, body, catches, finally } => contains_labeled_break_vec(
            resources
        )
            || contains_labeled_break(body) || contains_labeled_break_catches(catches)
            || contains_labeled_break_opt(finally),
        Stmt::Synchronized { body, .. } => contains_labeled_break(body),
        Stmt::Labeled { body, .. } => contains_labeled_break(body),
        Stmt::Break(label) => label.is_some(),
        _ => false,
    }
}

/// `contains_labeled_break` where there is a value.
pub fn contains_labeled_break_opt(o: &Option<Box<Stmt>>) -> (r: bool)
    ensures
        r == has_labeled_break_opt(opt_stmt(*o)),
    decreases o,
{
    match o {
        Some(x) => contains_labeled_break(x),
        None => false,
    }
}

/// `contains_labeled_break` over a list.
#[verifier::loop_isolation(false)]
pub fn contains_labeled_break_vec(l: &Vec<Stmt>) -> (r: bool)
    ensures
        r == has_labeled_break_seq(stmts(l@)),
    decreases l,
{
    let mut i: usize = 0;
    while i < l.len()
        invariant
            i <= l.len(),
            forall|j: int| 0 <= j < i ==> !(has_labeled_break(#[trigger] stmts(l@)[j])),
        decreases l.len() - i,
    {
        assert(decreases_to!(l => l@[i as int]));
        assert(stmts(l@)[i as int] == l@[i as int]@);
        if contains_labeled_break(&l[i]) {
            return true;
        }
        i += 1;
    }
    false
}

/// `contains_labeled_break` inside a switch arm.
pub fn contains_labeled_break_case(c: &CaseGroup) -> (r: bool)
    ensures
        r == has_labeled_break_case(c@),
    decreases c,
{
    contains_labeled_break_vec(&c.body)
}

/// `contains_labeled_break` over a list.
#[verifier::loop_isolation(false)]
pub fn contains_labeled_break_cases(l: &Vec<CaseGroup>) -> (r: bool)
    ensures
        r == has_labeled_break_cases(case_groups(l@)),
    decreases l,
{
    let mut i: usize = 0;
    while i < l.len()
        invariant
            i <= l.len(),
            forall|j: int| 0 <= j < i ==> !(has_labeled_break_case(#[trigger] case_groups(l@)[j])),
        decreases l.len() - i,
    {
        assert(decreases_to!(l => l@[i as int]));
        assert(case_groups(l@)[i as int] == l@[i as int]@);
        if contains_labeled_break_case(&l[i]) {
            return true;
        }
        i += 1;
    }
    false
}

/// `contains_labeled_break` inside a catch clause.
pub fn contains_labeled_break_catch(c: &Catch) -> (r: bool)
    ensures
        r == has_labeled_break_catch(c@),
    decreases c,
{
    contains_labeled_break(&c.body)
}

/// `contains_labeled_break` over a list.
#[verifier::loop_isolation(false)]
pub fn contains_labeled_break_catches(l: &Vec<Catch>) -> (r: bool)
    ensures
        r == has_labeled_break_catches(catch_list(l@)),
    decreases l,
{
    let mut i: usize = 0;
    while i < l.len()
        invariant
            i <= l.len(),
            forall|j: int| 0 <= j < i ==> !(has_labeled_break_catch(#[trigger] catch_list(l@)[j])),
        decreases l.len() - i,
    {
        assert(decreases_to!(l => l@[i as int]));
        assert(catch_list(l@)[i as int] == l@[i as int]@);
        if contains_labeled_break_catch(&l[i]) {
            return true;
        }
        i += 1;
    }
    false
}

/// `s` holds a `break` that may leave the loop around it: any `break` outside
/// nested loops and switches, or a labelled one.
pub open spec fn has_break(s: StmtV) -> bool
    decreases s,
{
    match s {
        StmtV::Block(items) => has_break_seq(items),
        StmtV::If { then_stmt, else_stmt, .. } => has_break(*then_stmt) || has_break_opt(else_stmt),
        StmtV::While { body, .. } => has_labeled_break(*body),
        StmtV::DoWhile { body, .. } => has_labeled_break(*body),
        StmtV::For { body, .. } => has_labeled_break(*body),
        StmtV::ForEach { body, .. } => has_labeled_break(*body),
        StmtV::Switch { cases, default, .. } => has_labeled_break_cases(cases)
            || has_labeled_break_opt(default),
        StmtV::Try { body, catches, finally } => has_break(*body) || has_break_catches(catches)
            || has_break_opt(finally),
        StmtV::TryWithResources { resources, body, catches, finally } => has_break_seq(resources)
            || has_break(*body) || has_break_catches(catches) || has_break_opt(finally),
        StmtV::Synchronized { body, .. } => has_break(*body),
        StmtV::Labeled { body, .. } => has_break(*body),
        StmtV::Break(_) => true,
        _ => false,
    }
}

/// [`has_break`] where there is a value.
pub open spec fn has_break_opt(o: Option<Box<StmtV>>) -> bool
    decreases o,
{
    match o {
        Some(x) => has_break(*x),
        None => false,
    }
}

/// [`has_break`] over a list.
pub open spec fn has_break_seq(l: Seq<StmtV>) -> bool
    decreases l,
{
    exists|i: int| 0 <= i < l.len() && has_break(#[trigger] l[i])
}

/// [`has_break`] inside a catch clause.
pub open spec fn has_break_catch(c: CatchV) -> bool
    decreases c,
{
    has_break(*c.body)
}

/// [`has_break`] over a list.
pub open spec fn has_break_catches(l: Seq<CatchV>) -> bool
    decreases l,
{
    exists|i: int| 0 <= i < l.len() && has_break_catch(#[trigger] l[i])
}

/// Whether `s` holds a `break` that may leave the loop around it: any `break` outside
/// nested loops and switches, or a labelled one.
pub fn contains_break_stmt(s: &Stmt) -> (r: bool)
    ensures
        r == has_break(s@),
    decreases s,
{
    match s {
        Stmt::Block(items) => contains_break_stmt_vec(items),
        Stmt::If { then_stmt, else_stmt, .. } => contains_break_stmt(then_stmt)
            || contains_break_stmt_opt(else_stmt),
        Stmt::While { body, .. } => contains_labeled_break(body),
        Stmt::DoWhile { body, .. } => contains_labeled_break(body),
        Stmt::For { body, .. } => contains_labeled_break(body),
        Stmt::ForEach { body, .. } => contains_labeled_break(body),
        Stmt::Switch { cases, default, .. } => contains_labeled_break_cases(cases)
            || contains_labeled_break_opt(default),
        Stmt::Try { body, catches, finally } => contains_break_stmt(body)
            || contains_break_stmt_catches(catches) || contains_break_stmt_opt(finally),
        Stmt::TryWithResources { resources, body, catches, finally } => contains_break_stmt_vec(
            resources
        )
            || contains_break_stmt(body) || contains_break_stmt_catches(catches)
            || contains_break_stmt_opt(finally),
        Stmt::Synchronized { body, .. } => contains_break_stmt(body),
        Stmt::Labeled { body, .. } => contains_break_stmt(body),
        Stmt::Break(_) => true,
        _ => false,
    }
}

/// `contains_break_stmt` where there is a value.
pub fn contains_break_stmt_opt(o: &Option<Box<Stmt>>) -> (r: bool)
    ensures
        r == has_break_opt(opt_stmt(*o)),
    decreases o,
{
    match o {
        Some(x) => contains_break_stmt(x),
        None => false,
    }
}

/// `contains_break_stmt` over a list.
#[verifier::loop_isolation(false)]
pub fn contains_break_stmt_vec(l: &Vec<Stmt>) -> (r: bool)
    ensures
        r == has_break_seq(stmts(l@)),
    decreases l,
{
    let mut i: usize = 0;
    while i < l.len()
        invariant
            i <= l.len(),
            forall|j: int| 0 <= j < i ==> !(has_break(#[trigger] stmts(l@)[j])),
        decreases l.len() - i,
    {
        assert(decreases_to!(l => l@[i as int]));
        assert(stmts(l@)[i as int] == l@[i as int]@);
        if contains_break_stmt(&l[i]) {
            return true;
        }
        i += 1;
    }
    false
}

/// `contains_break_stmt` inside a catch clause.
pub fn contains_break_stmt_catch(c: &Catch) -> (r: bool)
    ensures
        r == has_break_catch(c@),
    decreases c,
{
    contains_break_stmt(&c.body)
}

/// `contains_break_stmt` over a list.
#[verifier::loop_isolation(false)]
pub fn contains_break_stmt_catches(l: &Vec<Catch>) -> (r: bool)
    ensures
        r == has_break_catches(catch_list(l@)),
    decreases l,
{
    let mut i: usize = 0;
    while i < l.len()
        invariant
            i <= l.len(),
            forall|j: int| 0 <= j < i ==> !(has_break_catch(#[trigger] catch_list(l@)[j])),
        decreases l.len() - i,
    {
        assert(decreases_to!(l => l@[i as int]));
        assert(catch_list(l@)[i as int] == l@[i as int]@);
        if contains_break_stmt_catch(&l[i]) {
            return true;
        }
        i += 1;
    }
    false
}

/// `s` holds an unlabelled `break` that ends the switch around it.
pub open spec fn plain_break(s: StmtV) -> bool
    decreases s,
{
    match s {
        StmtV::Block(items) => plain_break_seq(items),
        StmtV::If { then_stmt, else_stmt, .. } => plain_break(*then_stmt)
            || plain_break_opt(else_stmt),
        StmtV::Try { body, catches, .. } => plain_break(*body) || plain_break_catches(catches),
        StmtV::Synchronized { body, .. } => plain_break(*body),
        StmtV::Labeled { body, .. } => plain_break(*body),
        StmtV::Break(label) => label is None,
        _ => false,
    }
}

/// [`plain_break`] where there is a value.
pub open spec fn plain_break_opt(o: Option<Box<StmtV>>) -> bool
    decreases o,
{
    match o {
        Some(x) => plain_break(*x),
        None => false,
    }
}

/// [`plain_break`] over a list.
pub open spec fn plain_break_seq(l: Seq<StmtV>) -> bool
    decreases l,
{
    exists|i: int| 0 <= i < l.len() && plain_break(#[trigger] l[i])
}

/// [`plain_break`] inside a catch clause.
pub open spec fn plain_break_catch(c: CatchV) -> bool
    decreases c,
{
    plain_break(*c.body)
}

/// [`plain_break`] over a list.
pub open spec fn plain_break_catches(l: Seq<CatchV>) -> bool
    decreases l,
{
    exists|i: int| 0 <= i < l.len() && plain_break_catch(#[trigger] l[i])
}

/// Whether `s` holds an unlabelled `break` that ends the switch around it.
pub fn has_plain_break(s: &Stmt) -> (r: bool)
    ensures
        r == plain_break(s@),
    decreases s,
{
    match s {
        Stmt::Block(items) => has_plain_break_vec(items),
        Stmt::If { then_stmt, else_stmt, .. } => has_plain_break(then_stmt)
            || has_plain_break_opt(else_stmt),
        Stmt::Try { body, catches, .. } => has_plain_break(body)
            || has_plain_break_catches(catches),
        Stmt::Synchronized { body, .. } => has_plain_break(body),
        Stmt::Labeled { body, .. } => has_plain_break(body),
        Stmt::Break(label) => label.is_none(),
        _ => false,
    }
}

/// `has_plain_break` where there is a value.
pub fn has_plain_break_opt(o: &Option<Box<Stmt>>) -> (r: bool)
    ensures
        r == plain_break_opt(opt_stmt(*o)),
    decreases o,
{
    match o {
        Some(x) => has_plain_break(x),
        None => false,
    }
}

/// `has_plain_break` over a list.
#[verifier::loop_isolation(false)]
pub fn has_plain_break_vec(l: &Vec<Stmt>) -> (r: bool)
    ensures
        r == plain_break_seq(stmts(l@)),
    decreases l,
{
    let mut i: usize = 0;
    while i < l.len()
        invariant
            i <= l.len(),
            forall|j: int| 0 <= j < i ==> !(plain_break(#[trigger] stmts(l@)[j])),
        decreases l.len() - i,
    {
        assert(decreases_to!(l => l@[i as int]));
        assert(stmts(l@)[i as int] == l@[i as int]@);
        if has_plain_break(&l[i]) {
            return true;
        }
        i += 1;
    }
    false
}

/// `has_plain_break` inside a catch clause.
pub fn has_plain_break_catch(c: &Catch) -> (r: bool)
    ensures
        r == plain_break_catch(c@),
    decreases c,
{
    has_plain_break(&c.body)
}

/// `has_plain_break` over a list.
#[verifier::loop_isolation(false)]
pub fn has_plain_break_catches(l: &Vec<Catch>) -> (r: bool)
    ensures
        r == plain_break_catches(catch_list(l@)),
    decreases l,
{
    let mut i: usize = 0;
    while i < l.len()
        invariant
            i <= l.len(),
            forall|j: int| 0 <= j < i ==> !(plain_break_catch(#[trigger] catch_list(l@)[j])),
        decreases l.len() - i,
    {
        assert(decreases_to!(l => l@[i as int]));
        assert(catch_list(l@)[i as int] == l@[i as int]@);
        if has_plain_break_catch(&l[i]) {
            return true;
        }
        i += 1;
    }
    false
}

/// `s` holds a `break` to the label `target`.
pub open spec fn breaks_to(s: StmtV, target: Seq<char>) -> bool
    decreases s,
{
    match s {
        StmtV::Block(items) => breaks_to_seq(items, target),
        StmtV::If { then_stmt, else_stmt, .. } => breaks_to(*then_stmt, target)
            || breaks_to_opt(else_stmt, target),
        StmtV::While { body, .. } => breaks_to(*body, target),
        StmtV::DoWhile { body, .. } => breaks_to(*body, target),
        StmtV::For { init, body, .. } => breaks_to_seq(init, target) || breaks_to(*body, target),
        StmtV::ForEach { body, .. } => breaks_to(*body, target),
        StmtV::Switch { cases, default, .. } => breaks_to_cases(cases, target)
            || breaks_to_opt(default, target),
        StmtV::Try { body, catches, finally } => breaks_to(*body, target)
            || breaks_to_catches(catches, target) || breaks_to_opt(finally, target),
        StmtV::TryWithResources { resources, body, catches, finally } => breaks_to_seq(
            resources,
            target,
        )
            || breaks_to(*body, target) || breaks_to_catches(catches, target)
            || breaks_to_opt(finally, target),
        StmtV::Synchronized { body, .. } => breaks_to(*body, target),
        StmtV::Labeled { body, .. } => breaks_to(*body, target),
        StmtV::Break(label) => label == Some(target),
        _ => false,
    }
}

/// [`breaks_to`] where there is a value.
pub open spec fn breaks_to_opt(o: Option<Box<StmtV>>, target: Seq<char>) -> bool
    decreases o,
{
    match o {
        Some(x) => breaks_to(*x, target),
        None => false,
    }
}

/// [`breaks_to`] over a list.
pub open spec fn breaks_to_seq(l: Seq<StmtV>, target: Seq<char>) -> bool
    decreases l,
{
    exists|i: int| 0 <= i < l.len() && breaks_to(#[trigger] l[i], target)
}

/// [`breaks_to`] inside a switch arm.
pub open spec fn breaks_to_case(c: CaseGroupV, target: Seq<char>) -> bool
    decreases c,
{
    breaks_to_seq(c.body, target)
}

/// [`breaks_to`] over a list.
pub open spec fn breaks_to_cases(l: Seq<CaseGroupV>, target: Seq<char>) -> bool
    decreases l,
{
    exists|i: int| 0 <= i < l.len() && breaks_to_case(#[trigger] l[i], target)
}

/// [`breaks_to`] inside a catch clause.
pub open spec fn breaks_to_catch(c: CatchV, target: Seq<char>) -> bool
    decreases c,
{
    breaks_to(*c.body, target)
}

/// [`breaks_to`] over a list.
pub open spec fn breaks_to_catches(l: Seq<CatchV>, target: Seq<char>) -> bool
    decreases l,
{
    exists|i: int| 0 <= i < l.len() && breaks_to_catch(#[trigger] l[i], target)
}

/// Whether `s` holds a `break` to the label `target`.
pub fn contains_break_to(s: &Stmt, target: &str) -> (r: bool)
    ensures
        r == breaks_to(s@, target@),
    decreases s,
{
    match s {
        Stmt::Block(items) => contains_break_to_vec(items, target),
        Stmt::If { then_stmt, else_stmt, .. } => contains_break_to(then_stmt, target)
            || contains_break_to_opt(else_stmt, target),
        Stmt::While { body, .. } => contains_break_to(body, target),
        Stmt::DoWhile { body, .. } => contains_break_to(body, target),
        Stmt::For { init, body, .. } => contains_break_to_vec(init, target)
            || contains_break_to(body, target),
        Stmt::ForEach { body, .. } => contains_break_to(body, target),
        Stmt::Switch { cases, default, .. } => contains_break_to_cases(cases, target)
            || contains_break_to_opt(default, target),
        Stmt::Try { body, catches, finally } => contains_break_to(body, target)
            || contains_break_to_catches(catches, target) || contains_break_to_opt(finally, target),
        Stmt::TryWithResources { resources, body, catches, finally } => contains_break_to_vec(
            resources,
            target,
        )
            || contains_break_to(body, target) || contains_break_to_catches(catches, target)
            || contains_break_to_opt(finally, target),
        Stmt::Synchronized { body, .. } => contains_break_to(body, target),
        Stmt::Labeled { body, .. } => contains_break_to(body, target),
        Stmt::Break(label) => names_label(label, target),
        _ => false,
    }
}

/// `contains_break_to` where there is a value.
pub fn contains_break_to_opt(o: &Option<Box<Stmt>>, target: &str) -> (r: bool)
    ensures
        r == breaks_to_opt(opt_stmt(*o), target@),
    decreases o,
{
    match o {
        Some(x) => contains_break_to(x, target),
        None => false,
    }
}

/// `contains_break_to` over a list.
#[verifier::loop_isolation(false)]
pub fn contains_break_to_vec(l: &Vec<Stmt>, target: &str) -> (r: bool)
    ensures
        r == breaks_to_seq(stmts(l@), target@),
    decreases l,
{
    let mut i: usize = 0;
    while i < l.len()
        invariant
            i <= l.len(),
            forall|j: int| 0 <= j < i ==> !(breaks_to(#[trigger] stmts(l@)[j], target@)),
        decreases l.len() - i,
    {
        assert(decreases_to!(l => l@[i as int]));
        assert(stmts(l@)[i as int] == l@[i as int]@);
        if contains_break_to(&l[i], target) {
            return true;
        }
        i += 1;
    }
    false
}

/// `contains_break_to` inside a switch arm.
pub fn contains_break_to_case(c: &CaseGroup, target: &str) -> (r: bool)
    ensures
        r == breaks_to_case(c@, target@),
    decreases c,
{
    contains_break_to_vec(&c.body, target)
}

/// `contains_break_to` over a list.
#[verifier::loop_isolation(false)]
pub fn contains_break_to_cases(l: &Vec<CaseGroup>, target: &str) -> (r: bool)
    ensures
        r == breaks_to_cases(case_groups(l@), target@),
    decreases l,
{
    let mut i: usize = 0;
    while i < l.len()
        invariant
            i <= l.len(),
            forall|j: int| 0 <= j < i ==> !(breaks_to_case(#[trigger] case_groups(l@)[j], target@)),
        decreases l.len() - i,
    {
        assert(decreases_to!(l => l@[i as int]));
        assert(case_groups(l@)[i as int] == l@[i as int]@);
        if contains_break_to_case(&l[i], target) {
            return true;
        }
        i += 1;
    }
    false
}

/// `contains_break_to` inside a catch clause.
pub fn contains_break_to_catch(c: &Catch, target: &str) -> (r: bool)
    ensures
        r == breaks_to_catch(c@, target@),
    decreases c,
{
    contains_break_to(&c.body, target)
}

/// `contains_break_to` over a list.
#[verifier::loop_isolation(false)]
pub fn contains_break_to_catches(l: &Vec<Catch>, target: &str) -> (r: bool)
    ensures
        r == breaks_to_catches(catch_list(l@), target@),
    decreases l,
{
    let mut i: usize = 0;
    while i < l.len()
        invariant
            i <= l.len(),
            forall|j: int| 0 <= j < i ==> !(breaks_to_catch(#[trigger] catch_list(l@)[j], target@)),
        decreases l.len() - i,
    {
        assert(decreases_to!(l => l@[i as int]));
        assert(catch_list(l@)[i as int] == l@[i as int]@);
        if contains_break_to_catch(&l[i], target) {
            return true;
        }
        i += 1;
    }
    false
}

/// Whether a jump names the label `target`.
fn names_label(label: &Option<String>, target: &str) -> (r: bool)
    ensures
        r == (opt_str(*label) == Some(target@)),
{
    match label {
        Some(l) => str_eq(l.as_str(), target),
        None => false,
    }
}

/// A loop that never completes: constantly true, without a `break` out of it.
pub open spec fn endless(cond: Option<ExprV>, body: StmtV) -> bool {
    (cond matches Some(c) ==> always(c)) && !has_break(body)
}

/// Whether a loop never completes.
fn is_endless(cond: &Option<Expr>, body: &Stmt) -> (r: bool)
    ensures
        r == endless(opt_expr(*cond), body@),
{
    (match cond {
        Some(c) => is_always(c),
        None => true,
    }) && !contains_break_stmt(body)
}

/// Control does not reach the end of `s`. With `no_break`, a `break` or `continue`
/// counts as reaching it.
pub open spec fn ends_abruptly(s: StmtV, no_break: bool) -> bool
    decreases s, 0int,
{
    match s {
        StmtV::Return(_) | StmtV::Throw(_) => true,
        StmtV::Break(_) | StmtV::Continue(_) => !no_break,
        StmtV::Block(items) => items.len() > 0 && ends_abruptly(items.last(), no_break),
        StmtV::If { then_stmt, else_stmt, .. } => match else_stmt {
            Some(e) => ends_abruptly(*then_stmt, no_break) && ends_abruptly(*e, no_break),
            None => false,
        },
        StmtV::Switch { cases, default, .. } => default_ends(default) && arms_end(cases),
        StmtV::Synchronized { body, .. } => ends_abruptly(*body, no_break),
        StmtV::Labeled { label, body } => ends_abruptly(*body, no_break)
            && !breaks_to(*body, label),
        StmtV::While { cond, body } => endless(Some(cond), *body),
        StmtV::DoWhile { body, cond } => endless(Some(cond), *body),
        StmtV::For { cond, body, .. } => endless(cond, *body),
        StmtV::Try { body, catches, .. } => ends_abruptly(*body, no_break) && catches_end(
            catches,
            no_break,
        ),
        _ => false,
    }
}

/// Every catch body ends abruptly.
pub open spec fn catches_end(catches: Seq<CatchV>, no_break: bool) -> bool
    decreases catches, 0int,
{
    forall|i: int| 0 <= i < catches.len() ==> catch_ends(#[trigger] catches[i], no_break)
}

/// The catch body ends abruptly.
pub open spec fn catch_ends(c: CatchV, no_break: bool) -> bool
    decreases c, 0int,
{
    ends_abruptly(*c.body, no_break)
}

/// Control never falls out of the end of a switch: it has a default that ends
/// abruptly, and every arm ends abruptly or falls into one that does, without a
/// plain `break` anywhere.
pub open spec fn switch_ends(cases: Seq<CaseGroupV>, default: Option<Box<StmtV>>) -> bool {
    default_ends(default) && arms_end(cases)
}

/// There is a default, which ends abruptly without a plain `break`.
pub open spec fn default_ends(default: Option<Box<StmtV>>) -> bool
    decreases default, 0int,
{
    default matches Some(d) && ends_abruptly(*d, true) && !plain_break(*d)
}

/// No arm leaves the switch by its end.
pub open spec fn arms_end(cases: Seq<CaseGroupV>) -> bool
    decreases cases, 0int,
{
    forall|i: int| 0 <= i < cases.len() ==> arm_ends(#[trigger] cases[i])
}

/// An arm does not leave the switch: it holds no plain `break`, and its last
/// statement ends abruptly or it runs on into the next arm. Past the last arm
/// comes the default.
pub open spec fn arm_ends(c: CaseGroupV) -> bool
    decreases c, 1int,
{
    !plain_break_seq(c.body) && (arm_falls(c) || arm_last_ends(c, true))
}

/// The arm is empty or its last statement falls through.
pub open spec fn arm_falls(c: CaseGroupV) -> bool
    decreases c, 0int,
{
    last_falls(c.body)
}

/// A list is empty or its last statement falls through.
pub open spec fn last_falls(v: Seq<StmtV>) -> bool
    decreases v, 0int,
{
    v.len() > 0 ==> falls_through(v.last())
}

/// The arm's last statement ends abruptly.
pub open spec fn arm_last_ends(c: CaseGroupV, no_break: bool) -> bool
    decreases c, 0int,
{
    last_ends(c.body, no_break)
}

/// A list has a last statement, which ends abruptly.
pub open spec fn last_ends(v: Seq<StmtV>, no_break: bool) -> bool
    decreases v, 0int,
{
    v.len() > 0 && ends_abruptly(v.last(), no_break)
}

/// `s` can complete without `break`, `continue`, `return` or `throw`.
pub open spec fn falls_through(s: StmtV) -> bool
    decreases s, 0int,
{
    match s {
        StmtV::Break(_) | StmtV::Continue(_) | StmtV::Return(_) | StmtV::Throw(_) => false,
        StmtV::Block(items) => last_falls(items),
        StmtV::If { then_stmt, else_stmt, .. } => match else_stmt {
            Some(e) => falls_through(*then_stmt) || falls_through(*e),
            None => true,
        },
        StmtV::While { cond, body } => !endless(Some(cond), *body),
        StmtV::DoWhile { body, cond } => !endless(Some(cond), *body),
        StmtV::Synchronized { body, .. } => falls_through(*body),
        StmtV::Labeled { label, body } => falls_through(*body) || breaks_to(*body, label),
        StmtV::Switch { cases, default, .. } => default_completes(default) || arms_complete(cases),
        StmtV::Try { body, catches, .. } => falls_through(*body) || catches_fall(catches),
        _ => true,
    }
}

/// Some catch body falls through.
pub open spec fn catches_fall(catches: Seq<CatchV>) -> bool
    decreases catches, 0int,
{
    exists|i: int| 0 <= i < catches.len() && catch_falls(#[trigger] catches[i])
}

/// The catch body falls through.
pub open spec fn catch_falls(c: CatchV) -> bool
    decreases c, 0int,
{
    falls_through(*c.body)
}

/// A switch can complete from its default: there is none, it has a plain `break`,
/// or it does not end abruptly.
pub open spec fn default_completes(default: Option<Box<StmtV>>) -> bool
    decreases default, 0int,
{
    default matches Some(d) ==> plain_break(*d) || !ends_abruptly(*d, false)
}

/// With a default that does not complete, a switch completes when entered at an
/// arm exactly if that arm's last statement holds a plain `break` or it runs on
/// to one that does.
pub open spec fn arms_complete(cases: Seq<CaseGroupV>) -> bool
    decreases cases, 0int,
{
    exists|i: int| 0 <= i < cases.len() && last_plain_break(#[trigger] cases[i].body)
}

/// A list has a last statement, which holds a plain `break`.
pub open spec fn last_plain_break(v: Seq<StmtV>) -> bool {
    v.len() > 0 && plain_break(v.last())
}

/// Control does not reach the end of `s`. Unlike [`ends_abruptly`] this looks into
/// try-with-resources.
pub open spec fn terminates(s: StmtV) -> bool
    decreases s,
{
    match s {
        StmtV::Return(_) | StmtV::Throw(_) | StmtV::Break(_) | StmtV::Continue(_) => true,
        StmtV::Block(items) => items.len() > 0 && terminates(items.last()),
        StmtV::If { then_stmt, else_stmt, .. } => match else_stmt {
            Some(e) => terminates(*then_stmt) && terminates(*e),
            None => false,
        },
        StmtV::Switch { cases, default, .. } => switch_ends(cases, default),
        StmtV::Synchronized { body, .. } => terminates(*body),
        StmtV::Labeled { label, body } => terminates(*body) && !breaks_to(*body, label),
        StmtV::While { cond, body } => endless(Some(cond), *body),
        StmtV::DoWhile { body, cond } => endless(Some(cond), *body),
        StmtV::For { cond, body, .. } => endless(cond, *body),
        StmtV::Try { body, catches, .. } => terminates(*body) && catches_terminate(catches),
        StmtV::TryWithResources { body, catches, .. } => terminates(*body) && catches_terminate(
            catches,
        ),
        _ => false,
    }
}

/// Every catch body terminates.
pub open spec fn catches_terminate(catches: Seq<CatchV>) -> bool
    decreases catches,
{
    forall|i: int| 0 <= i < catches.len() ==> catch_terminates(#[trigger] catches[i])
}

/// The catch body terminates.
pub open spec fn catch_terminates(c: CatchV) -> bool
    decreases c,
{
    terminates(*c.body)
}

/// Whether control does not reach the end of `s`; with `no_break`, a `break` or
/// `continue` counts as reaching it.
pub fn stmt_terminates_with(s: &Stmt, no_break: bool) -> (r: bool)
    ensures
        r == ends_abruptly(s@, no_break),
    decreases s, 0int,
{
    proof {
        reveal_with_fuel(Stmt::view, 2);
        reveal_with_fuel(opt_stmt, 2);
    }
    match s {
        Stmt::Return(_) | Stmt::Throw(_) => true,
        Stmt::Break(_) | Stmt::Continue(_) => !no_break,
        Stmt::Block(items) => last_terminates(items, no_break),
        Stmt::If { then_stmt, else_stmt, .. } => match else_stmt {
            Some(e) => stmt_terminates_with(then_stmt, no_break)
                && stmt_terminates_with(e, no_break),
            None => false,
        },
        Stmt::Switch { cases, default, .. } => default_terminates(default) && arms_terminate(cases),
        Stmt::Synchronized { body, .. } => stmt_terminates_with(body, no_break),
        Stmt::Labeled { label, body } => stmt_terminates_with(body, no_break) && !contains_break_to(
            body,
            label.as_str(),
        ),
        Stmt::While { cond, body } => is_always(cond) && !contains_break_stmt(body),
        Stmt::DoWhile { body, cond } => is_always(cond) && !contains_break_stmt(body),
        Stmt::For { cond, body, .. } => is_endless(cond, body),
        Stmt::Try { body, catches, .. } => stmt_terminates_with(body, no_break)
            && catches_terminate_with(catches, no_break),
        _ => false,
    }
}

/// Whether a list has a last statement, which terminates.
fn last_terminates(v: &Vec<Stmt>, no_break: bool) -> (r: bool)
    ensures
        r == last_ends(stmts(v@), no_break),
    decreases v, 0int,
{
    if v.len() == 0 {
        return false;
    }
    assert(decreases_to!(v => v@[v@.len() - 1]));
    assert(stmts(v@).last() == v@[v@.len() - 1]@);
    stmt_terminates_with(&v[v.len() - 1], no_break)
}

/// Whether every catch body terminates.
#[verifier::loop_isolation(false)]
fn catches_terminate_with(l: &Vec<Catch>, no_break: bool) -> (r: bool)
    ensures
        r == catches_end(catch_list(l@), no_break),
    decreases l, 0int,
{
    let mut i: usize = 0;
    while i < l.len()
        invariant
            i <= l.len(),
            forall|j: int| 0 <= j < i ==> catch_ends(#[trigger] catch_list(l@)[j], no_break),
        decreases l.len() - i,
    {
        assert(decreases_to!(l => l@[i as int]));
        assert(catch_list(l@)[i as int] == l@[i as int]@);
        if !catch_terminates_with(&l[i], no_break) {
            return false;
        }
        i += 1;
    }
    true
}

/// Whether the catch body terminates.
fn catch_terminates_with(c: &Catch, no_break: bool) -> (r: bool)
    ensures
        r == catch_ends(c@, no_break),
    decreases c, 0int,
{
    stmt_terminates_with(&c.body, no_break)
}

/// Whether control never falls out of the end of a switch.
pub fn switch_terminates_with(cases: &Vec<CaseGroup>, default: &Option<Box<Stmt>>) -> (r: bool)
    ensures
        r == switch_ends(case_groups(cases@), opt_stmt(*default)),
{
    default_terminates(default) && arms_terminate(cases)
}

/// Whether there is a default, which ends abruptly without a plain `break`.
fn default_terminates(default: &Option<Box<Stmt>>) -> (r: bool)
    ensures
        r == default_ends(opt_stmt(*default)),
    decreases default, 0int,
{
    match default {
        Some(d) => stmt_terminates_with(d, true) && !has_plain_break(d),
        None => false,
    }
}

/// Whether no arm leaves the switch by its end.
#[verifier::loop_isolation(false)]
fn arms_terminate(cases: &Vec<CaseGroup>) -> (r: bool)
    ensures
        r == arms_end(case_groups(cases@)),
    decreases cases, 0int,
{
    let ghost all = case_groups(cases@);
    let mut i: usize = 0;
    while i < cases.len()
        invariant
            i <= cases.len(),
            forall|j: int| 0 <= j < i ==> arm_ends(#[trigger] all[j]),
        decreases cases.len() - i,
    {
        assert(decreases_to!(cases => cases@[i as int]));
        assert(all[i as int] == cases@[i as int]@);
        if !arm_terminates(&cases[i]) {
            return false;
        }
        i += 1;
    }
    true
}

/// Whether an arm does not leave the switch.
fn arm_terminates(c: &CaseGroup) -> (r: bool)
    ensures
        r == arm_ends(c@),
    decreases c, 0int,
{
    !has_plain_break_vec(&c.body) && (body_falls_through(&c.body) || last_terminates(&c.body, true))
}

/// Whether a list is empty or its last statement falls through.
fn body_falls_through(v: &Vec<Stmt>) -> (r: bool)
    ensures
        r == last_falls(stmts(v@)),
    decreases v, 0int,
{
    if v.len() == 0 {
        return true;
    }
    assert(decreases_to!(v => v@[v@.len() - 1]));
    assert(stmts(v@).last() == v@[v@.len() - 1]@);
    last_falls_through(&v[v.len() - 1])
}

/// Whether `s` can complete without `break`, `continue`, `return` or `throw`.
pub fn last_falls_through(s: &Stmt) -> (r: bool)
    ensures
        r == falls_through(s@),
    decreases s, 0int,
{
    proof {
        reveal_with_fuel(Stmt::view, 2);
        reveal_with_fuel(opt_stmt, 2);
    }
    match s {
        Stmt::Break(_) | Stmt::Continue(_) | Stmt::Return(_) | Stmt::Throw(_) => false,
        Stmt::Block(items) => body_falls_through(items),
        Stmt::If { then_stmt, else_stmt, .. } => match else_stmt {
            Some(e) => last_falls_through(then_stmt) || last_falls_through(e),
            None => true,
        },
        Stmt::While { cond, body } => !(is_always(cond) && !contains_break_stmt(body)),
        Stmt::DoWhile { body, cond } => !(is_always(cond) && !contains_break_stmt(body)),
        Stmt::Synchronized { body, .. } => last_falls_through(body),
        Stmt::Labeled { label, body } => last_falls_through(body) || contains_break_to(
            body,
            label.as_str(),
        ),
        Stmt::Switch { cases, default, .. } => switch_completes(default) || some_arm_breaks(cases),
        Stmt::Try { body, catches, .. } => last_falls_through(body) || any_catch_falls(catches),
        _ => true,
    }
}

/// Whether some catch body falls through.
#[verifier::loop_isolation(false)]
fn any_catch_falls(l: &Vec<Catch>) -> (r: bool)
    ensures
        r == catches_fall(catch_list(l@)),
    decreases l, 0int,
{
    let mut i: usize = 0;
    while i < l.len()
        invariant
            i <= l.len(),
            forall|j: int| 0 <= j < i ==> !catch_falls(#[trigger] catch_list(l@)[j]),
        decreases l.len() - i,
    {
        assert(decreases_to!(l => l@[i as int]));
        assert(catch_list(l@)[i as int] == l@[i as int]@);
        if catch_falls_through(&l[i]) {
            return true;
        }
        i += 1;
    }
    false
}

/// Whether the catch body falls through.
fn catch_falls_through(c: &Catch) -> (r: bool)
    ensures
        r == catch_falls(c@),
    decreases c, 0int,
{
    last_falls_through(&c.body)
}

/// Whether a switch can complete normally.
fn switch_completes(default: &Option<Box<Stmt>>) -> (r: bool)
    ensures
        r == default_completes(opt_stmt(*default)),
    decreases default, 0int,
{
    match default {
        Some(d) => has_plain_break(d) || !stmt_terminates_with(d, false),
        None => true,
    }
}

/// Whether the last statement of some arm holds a plain `break`.
#[verifier::loop_isolation(false)]
fn some_arm_breaks(cases: &Vec<CaseGroup>) -> (r: bool)
    ensures
        r == arms_complete(case_groups(cases@)),
{
    let ghost all = case_groups(cases@);
    let mut i: usize = 0;
    while i < cases.len()
        invariant
            i <= cases.len(),
            forall|j: int| 0 <= j < i ==> !last_plain_break(#[trigger] all[j].body),
        decreases cases.len() - i,
    {
        let body = &cases[i].body;
        assert(all[i as int] == cases@[i as int]@);
        assert(all[i as int].body == stmts(body@));
        if body.len() > 0 {
            assert(stmts(body@).last() == body@[body@.len() - 1]@);
            if has_plain_break(&body[body.len() - 1]) {
                return true;
            }
        }
        i += 1;
    }
    false
}

/// Whether control never falls out of the end of a switch.
pub fn switch_terminates(cases: &Vec<CaseGroup>, default: &Option<Box<Stmt>>) -> (r: bool)
    ensures
        r == switch_ends(case_groups(cases@), opt_stmt(*default)),
{
    switch_terminates_with(cases, default)
}

/// Whether control does not reach the end of `s`.
pub fn stmt_terminates(s: &Stmt) -> (r: bool)
    ensures
        r == terminates(s@),
    decreases s,
{
    proof {
        reveal_with_fuel(Stmt::view, 2);
        reveal_with_fuel(opt_stmt, 2);
    }
    match s {
        Stmt::Return(_) | Stmt::Throw(_) | Stmt::Break(_) | Stmt::Continue(_) => true,
        Stmt::Block(items) => {
            if items.len() == 0 {
                return false;
            }
            assert(decreases_to!(items => items@[items@.len() - 1]));
            assert(stmts(items@).last() == items@[items@.len() - 1]@);
            stmt_terminates(&items[items.len() - 1])
        },
        Stmt::If { then_stmt, else_stmt, .. } => match else_stmt {
            Some(e) => stmt_terminates(then_stmt) && stmt_terminates(e),
            None => false,
        },
        Stmt::Switch { cases, default, .. } => switch_terminates(cases, default),
        Stmt::Synchronized { body, .. } => stmt_terminates(body),
        Stmt::Labeled { label, body } => stmt_terminates(body) && !contains_break_to(
            body,
            label.as_str(),
        ),
        Stmt::While { cond, body } => is_always(cond) && !contains_break_stmt(body),
        Stmt::DoWhile { body, cond } => is_always(cond) && !contains_break_stmt(body),
        Stmt::For { cond, body, .. } => is_endless(cond, body),
        Stmt::Try { body, catches, .. } => stmt_terminates(body) && all_catches_terminate(catches),
        Stmt::TryWithResources { body, catches, .. } => stmt_terminates(body)
            && all_catches_terminate(catches),
        _ => false,
    }
}

/// Whether every catch body terminates.
#[verifier::loop_isolation(false)]
fn all_catches_terminate(l: &Vec<Catch>) -> (r: bool)
    ensures
        r == catches_terminate(catch_list(l@)),
    decreases l,
{
    let mut i: usize = 0;
    while i < l.len()
        invariant
            i <= l.len(),
            forall|j: int| 0 <= j < i ==> catch_terminates(#[trigger] catch_list(l@)[j]),
        decreases l.len() - i,
    {
        assert(decreases_to!(l => l@[i as int]));
        assert(catch_list(l@)[i as int] == l@[i as int]@);
        if !one_catch_terminates(&l[i]) {
            return false;
        }
        i += 1;
    }
    true
}

/// Whether the catch body terminates.
fn one_catch_terminates(c: &Catch) -> (r: bool)
    ensures
        r == catch_terminates(c@),
    decreases c,
{
    stmt_terminates(&c.body)
}

/// Whether `s` is a jump: `return`, `throw`, `break` or `continue`.
pub fn is_terminator_stmt(s: &Stmt) -> (r: bool)
    ensures
        r == (s@ is Return || s@ is Throw || s@ is Break || s@ is Continue),
{
    matches!(s, Stmt::Return(_) | Stmt::Throw(_) | Stmt::Break(_) | Stmt::Continue(_))
}

// ---------------------------------------------------------------------
// Removal of dead jumps.

/// An unlabelled `break`.
pub open spec fn is_plain_break(s: StmtV) -> bool {
    s == StmtV::Break(None)
}

/// A list without the plain `break`s at its end.
pub open spec fn without_tail_breaks(v: Seq<StmtV>) -> Seq<StmtV>
    decreases v.len(),
{
    if v.len() > 0 && is_plain_break(v.last()) {
        without_tail_breaks(v.drop_last())
    } else {
        v
    }
}

/// A loop body without the plain `break`s at its end.
pub open spec fn tail_break_stripped(body: StmtV) -> StmtV {
    match body {
        StmtV::Block(v) => StmtV::Block(without_tail_breaks(v)),
        _ => if is_plain_break(body) {
            empty_block()
        } else {
            body
        },
    }
}

/// Whether a plain `break` at the end of this loop's body is dead: only in a
/// `do`-`while`. In a conditional loop it is how the loop completes.
pub fn tail_break_strippable(s: &Stmt) -> (r: bool)
    ensures
        r == (s@ is DoWhile),
{
    matches!(s, Stmt::DoWhile { .. })
}

/// Whether `s` is an unlabelled `break`.
pub fn plain(s: &Stmt) -> (r: bool)
    ensures
        r == is_plain_break(s@),
{
    match s {
        Stmt::Break(l) => l.is_none(),
        _ => false,
    }
}

/// Removes the plain `break`s at the end of a loop body.
pub fn strip_tail_break(body: &mut Stmt)
    ensures
        final(body)@ == tail_break_stripped(old(body)@),
{
    if plain(body) {
        *body = no_stmt();
        return ;
    }
    if let Stmt::Block(v) = body {
        strip_breaks(v);
    }
}

/// Removes the plain `break`s at the end of a list.
#[verifier::loop_isolation(false)]
fn strip_breaks(v: &mut Vec<Stmt>)
    ensures
        stmts(final(v)@) == without_tail_breaks(stmts(old(v)@)),
{
    while v.len() > 0 && plain(&v[v.len() - 1])
        invariant
            without_tail_breaks(stmts(v@)) == without_tail_breaks(stmts(old(v)@)),
        decreases v.len(),
    {
        let ghost before = stmts(v@);
        v.pop();
        assert(stmts(v@) =~= before.drop_last());
    }
    if v.len() > 0 {
        assert(stmts(v@).last() == v@[v@.len() - 1]@);
    }
}

/// `s` without the dead `break`s at the end of `do`-`while` bodies.
pub open spec fn dead_breaks_pruned(s: StmtV) -> StmtV
    decreases s,
{
    match s {
        StmtV::Block(items) => StmtV::Block(dead_breaks_pruned_seq(items)),
        StmtV::If { cond, then_stmt, else_stmt } => StmtV::If {
            cond,
            then_stmt: Box::new(dead_breaks_pruned(*then_stmt)),
            else_stmt: dead_breaks_pruned_opt(else_stmt),
        },
        StmtV::While { cond, body } => StmtV::While {
            cond,
            body: Box::new(dead_breaks_pruned(*body)),
        },
        StmtV::DoWhile { body, cond } => StmtV::DoWhile {
            body: Box::new(tail_break_stripped(dead_breaks_pruned(*body))),
            cond,
        },
        StmtV::For { init, cond, update, body } => StmtV::For {
            init,
            cond,
            update,
            body: Box::new(dead_breaks_pruned(*body)),
        },
        StmtV::ForEach { var, iterable, is_array, body } => StmtV::ForEach {
            var,
            iterable,
            is_array,
            body: Box::new(dead_breaks_pruned(*body)),
        },
        StmtV::Switch { selector, cases, default, on_string } => StmtV::Switch {
            selector,
            cases: dead_breaks_pruned_cases(cases),
            default: dead_breaks_pruned_opt(default),
            on_string,
        },
        StmtV::Try { body, catches, finally } => StmtV::Try {
            body: Box::new(dead_breaks_pruned(*body)),
            catches: dead_breaks_pruned_catches(catches),
            finally: dead_breaks_pruned_opt(finally),
        },
        StmtV::TryWithResources { resources, body, catches, finally } => StmtV::TryWithResources {
            resources: dead_breaks_pruned_seq(resources),
            body: Box::new(dead_breaks_pruned(*body)),
            catches: dead_breaks_pruned_catches(catches),
            finally: dead_breaks_pruned_opt(finally),
        },
        StmtV::Synchronized { lock, body } => StmtV::Synchronized {
            lock,
            body: Box::new(dead_breaks_pruned(*body)),
        },
        StmtV::Labeled { label, body } => StmtV::Labeled {
            label,
            body: Box::new(dead_breaks_pruned(*body)),
        },
        _ => s,
    }
}

/// [`dead_breaks_pruned`] where there is a value.
pub open spec fn dead_breaks_pruned_opt(o: Option<Box<StmtV>>) -> Option<Box<StmtV>>
    decreases o,
{
    match o {
        Some(x) => Some(Box::new(dead_breaks_pruned(*x))),
        None => None,
    }
}

/// [`dead_breaks_pruned`] over a list.
pub open spec fn dead_breaks_pruned_seq(v: Seq<StmtV>) -> Seq<StmtV>
    decreases v,
{
    Seq::new(
        v.len(),
        |i: int| if 0 <= i < v.len() { dead_breaks_pruned(v[i]) } else { arbitrary() },
    )
}

/// [`dead_breaks_pruned`] inside a switch arm.
pub open spec fn dead_breaks_pruned_case(c: CaseGroupV) -> CaseGroupV
    decreases c,
{
    CaseGroupV { body: dead_breaks_pruned_seq(c.body), ..c }
}

/// [`dead_breaks_pruned`] over a list.
pub open spec fn dead_breaks_pruned_cases(v: Seq<CaseGroupV>) -> Seq<CaseGroupV>
    decreases v,
{
    Seq::new(
        v.len(),
        |i: int| if 0 <= i < v.len() { dead_breaks_pruned_case(v[i]) } else { arbitrary() },
    )
}

/// [`dead_breaks_pruned`] inside a catch clause.
pub open spec fn dead_breaks_pruned_catch(c: CatchV) -> CatchV
    decreases c,
{
    CatchV { body: Box::new(dead_breaks_pruned(*c.body)), ..c }
}

/// [`dead_breaks_pruned`] over a list.
pub open spec fn dead_breaks_pruned_catches(v: Seq<CatchV>) -> Seq<CatchV>
    decreases v,
{
    Seq::new(
        v.len(),
        |i: int| if 0 <= i < v.len() { dead_breaks_pruned_catch(v[i]) } else { arbitrary() },
    )
}

/// Removes the dead `break`s at the end of `do`-`while` bodies, everywhere in `s`.
pub fn prune_dead_breaks(s: &mut Stmt)
    ensures
        final(s)@ == dead_breaks_pruned(old(s)@),
    decreases *old(s),
{
    match s {
        Stmt::Block(items) => { prune_dead_breaks_vec(items); },
        Stmt::If { then_stmt, else_stmt, .. } => {
            prune_dead_breaks(then_stmt);
            prune_dead_breaks_opt(else_stmt);
        },
        Stmt::While { body, .. } => { prune_dead_breaks(body); },
        Stmt::DoWhile { body, .. } => { prune_dead_breaks(body); strip_tail_break(body); },
        Stmt::For { body, .. } => { prune_dead_breaks(body); },
        Stmt::ForEach { body, .. } => { prune_dead_breaks(body); },
        Stmt::Switch { cases, default, .. } => {
            prune_dead_breaks_cases(cases);
            prune_dead_breaks_opt(default);
        },
        Stmt::Try { body, catches, finally } => {
            prune_dead_breaks(body);
            prune_dead_breaks_catches(catches);
            prune_dead_breaks_opt(finally);
        },
        Stmt::TryWithResources { resources, body, catches, finally } => {
            prune_dead_breaks_vec(resources);
            prune_dead_breaks(body);
            prune_dead_breaks_catches(catches);
            prune_dead_breaks_opt(finally);
        },
        Stmt::Synchronized { body, .. } => { prune_dead_breaks(body); },
        Stmt::Labeled { body, .. } => { prune_dead_breaks(body); },
        _ => {},
    }
}

/// `prune_dead_breaks` where there is a value.
pub fn prune_dead_breaks_opt(o: &mut Option<Box<Stmt>>)
    ensures
        opt_stmt(*final(o)) == dead_breaks_pruned_opt(opt_stmt(*old(o))),
    decreases *old(o),
{
    if let Some(x) = o {
        prune_dead_breaks(x);
    }
}

/// `prune_dead_breaks` over a list.
#[verifier::loop_isolation(false)]
pub fn prune_dead_breaks_vec(v: &mut Vec<Stmt>)
    ensures
        stmts(final(v)@) == dead_breaks_pruned_seq(stmts(old(v)@)),
    decreases *old(v),
{
    let mut i: usize = 0;
    while i < v.len()
        invariant
            i <= v.len(),
            v.len() == old(v).len(),
            forall|j: int| 0 <= j < i ==> (#[trigger] v@[j])@ == dead_breaks_pruned(old(v)@[j]@),
            forall|j: int| i <= j < v.len() ==> #[trigger] v@[j] == old(v)@[j],
        decreases v.len() - i,
    {
        assert(decreases_to!(*old(v) => v@[i as int]));
        prune_dead_breaks(&mut v[i]);
        i += 1;
    }
    assert(stmts(v@) =~= dead_breaks_pruned_seq(stmts(old(v)@)));
}

/// `prune_dead_breaks` inside a switch arm.
pub fn prune_dead_breaks_case(c: &mut CaseGroup)
    ensures
        final(c)@ == dead_breaks_pruned_case(old(c)@),
    decreases *old(c),
{
    prune_dead_breaks_vec(&mut c.body);
}

/// `prune_dead_breaks` over a list.
#[verifier::loop_isolation(false)]
pub fn prune_dead_breaks_cases(v: &mut Vec<CaseGroup>)
    ensures
        case_groups(final(v)@) == dead_breaks_pruned_cases(case_groups(old(v)@)),
    decreases *old(v),
{
    let mut i: usize = 0;
    while i < v.len()
        invariant
            i <= v.len(),
            v.len() == old(v).len(),
            forall|j: int|
                0 <= j < i ==> (#[trigger] v@[j])@ == dead_breaks_pruned_case(old(v)@[j]@),
            forall|j: int| i <= j < v.len() ==> #[trigger] v@[j] == old(v)@[j],
        decreases v.len() - i,
    {
        assert(decreases_to!(*old(v) => v@[i as int]));
        prune_dead_breaks_case(&mut v[i]);
        i += 1;
    }
    assert(case_groups(v@) =~= dead_breaks_pruned_cases(case_groups(old(v)@)));
}

/// `prune_dead_breaks` inside a catch clause.
pub fn prune_dead_breaks_catch(c: &mut Catch)
    ensures
        final(c)@ == dead_breaks_pruned_catch(old(c)@),
    decreases *old(c),
{
    prune_dead_breaks(&mut c.body);
}

/// `prune_dead_breaks` over a list.
#[verifier::loop_isolation(false)]
pub fn prune_dead_breaks_catches(v: &mut Vec<Catch>)
    ensures
        catch_list(final(v)@) == dead_breaks_pruned_catches(catch_list(old(v)@)),
    decreases *old(v),
{
    let mut i: usize = 0;
    while i < v.len()
        invariant
            i <= v.len(),
            v.len() == old(v).len(),
            forall|j: int|
                0 <= j < i ==> (#[trigger] v@[j])@ == dead_breaks_pruned_catch(old(v)@[j]@),
            forall|j: int| i <= j < v.len() ==> #[trigger] v@[j] == old(v)@[j],
        decreases v.len() - i,
    {
        assert(decreases_to!(*old(v) => v@[i as int]));
        prune_dead_breaks_catch(&mut v[i]);
        i += 1;
    }
    assert(catch_list(v@) =~= dead_breaks_pruned_catches(catch_list(old(v)@)));
}

/// Position of the first statement that terminates.
pub open spec fn first_end(v: Seq<StmtV>) -> Option<int>
    decreases v.len(),
{
    if v.len() == 0 {
        None
    } else {
        match first_end(v.drop_last()) {
            Some(i) => Some(i),
            None => if terminates(v.last()) {
                Some(v.len() - 1)
            } else {
                None
            },
        }
    }
}

/// A list up to and with its first statement that terminates.
pub open spec fn cut(v: Seq<StmtV>) -> Seq<StmtV> {
    match first_end(v) {
        Some(i) => v.take(i + 1),
        None => v,
    }
}

/// What [`first_end`] finds.
pub proof fn lemma_first_end(v: Seq<StmtV>)
    ensures
        match first_end(v) {
            Some(i) => 0 <= i < v.len() && terminates(v[i]) && forall|j: int|
                0 <= j < i ==> !terminates(#[trigger] v[j]),
            None => forall|j: int| 0 <= j < v.len() ==> !terminates(#[trigger] v[j]),
        },
    decreases v.len(),
{
    if v.len() > 0 {
        lemma_first_end(v.drop_last());
        assert forall|j: int| 0 <= j < v.len() - 1 implies v.drop_last()[j] == #[trigger] v[j] by {}
    }
}

/// How much of a list stays.
fn cut_len(v: &Vec<Stmt>) -> (r: usize)
    ensures
        r == cut(stmts(v@)).len(),
        r <= v.len(),
{
    let ghost all = stmts(v@);
    proof {
        lemma_first_end(all);
    }
    let mut i: usize = 0;
    while i < v.len()
        invariant
            i <= v.len(),
            all == stmts(v@),
            forall|j: int| 0 <= j < i ==> !terminates(#[trigger] all[j]),
        decreases v.len() - i,
    {
        if stmt_terminates(&v[i]) {
            assert(terminates(all[i as int]));
            proof {
                lemma_first_end(all);
            }
            return i + 1;
        }
        assert(all[i as int] == v@[i as int]@);
        i += 1;
    }
    v.len()
}

/// Drops what follows the first statement that terminates.
fn cut_tail(v: &mut Vec<Stmt>)
    ensures
        stmts(final(v)@) == cut(stmts(old(v)@)),
{
    let n = cut_len(v);
    proof {
        lemma_first_end(stmts(v@));
    }
    v.truncate(n);
    assert(stmts(v@) =~= cut(stmts(old(v)@)));
}

/// `s` without the statements of a list that follow one that terminates.
pub open spec fn unreachable_pruned(s: StmtV) -> StmtV
    decreases s, 0nat,
{
    match s {
        StmtV::Block(items) => StmtV::Block(cut(unreachable_pruned_seq(items))),
        StmtV::If { cond, then_stmt, else_stmt } => StmtV::If {
            cond,
            then_stmt: Box::new(unreachable_pruned(*then_stmt)),
            else_stmt: unreachable_pruned_opt(else_stmt),
        },
        StmtV::While { cond, body } => StmtV::While {
            cond,
            body: Box::new(unreachable_pruned(*body)),
        },
        StmtV::DoWhile { body, cond } => StmtV::DoWhile {
            body: Box::new(unreachable_pruned(*body)),
            cond,
        },
        StmtV::For { init, cond, update, body } => StmtV::For {
            init: unreachable_pruned_seq(init),
            cond,
            update,
            body: Box::new(unreachable_pruned(*body)),
        },
        StmtV::ForEach { var, iterable, is_array, body } => StmtV::ForEach {
            var,
            iterable,
            is_array,
            body: Box::new(unreachable_pruned(*body)),
        },
        StmtV::Switch { selector, cases, default, on_string } => StmtV::Switch {
            selector,
            cases: unreachable_pruned_cases(cases),
            default: unreachable_pruned_opt(default),
            on_string,
        },
        StmtV::Try { body, catches, finally } => StmtV::Try {
            body: Box::new(unreachable_pruned(*body)),
            catches: unreachable_pruned_catches(catches),
            finally: unreachable_pruned_opt(finally),
        },
        StmtV::TryWithResources { resources, body, catches, finally } => StmtV::TryWithResources {
            resources: unreachable_pruned_seq(resources),
            body: Box::new(unreachable_pruned(*body)),
            catches: unreachable_pruned_catches(catches),
            finally: unreachable_pruned_opt(finally),
        },
        StmtV::Synchronized { lock, body } => StmtV::Synchronized {
            lock,
            body: Box::new(unreachable_pruned(*body)),
        },
        StmtV::Labeled { label, body } => StmtV::Labeled {
            label,
            body: Box::new(unreachable_pruned(*body)),
        },
        _ => s,
    }
}

/// [`unreachable_pruned`] where there is a value.
pub open spec fn unreachable_pruned_opt(o: Option<Box<StmtV>>) -> Option<Box<StmtV>>
    decreases o, 0nat,
{
    match o {
        Some(x) => Some(Box::new(unreachable_pruned(*x))),
        None => None,
    }
}

/// [`unreachable_pruned`] over a list.
pub open spec fn unreachable_pruned_seq(v: Seq<StmtV>) -> Seq<StmtV>
    decreases v, 0nat,
{
    Seq::new(
        v.len(),
        |i: int| if 0 <= i < v.len() { unreachable_pruned(v[i]) } else { arbitrary() },
    )
}

/// [`unreachable_pruned`] inside a switch arm.
pub open spec fn unreachable_pruned_case(c: CaseGroupV) -> CaseGroupV
    decreases c, 0nat,
{
    CaseGroupV { body: cut(unreachable_pruned_seq(c.body)), ..c }
}

/// [`unreachable_pruned`] over a list.
pub open spec fn unreachable_pruned_cases(v: Seq<CaseGroupV>) -> Seq<CaseGroupV>
    decreases v, 0nat,
{
    Seq::new(
        v.len(),
        |i: int| if 0 <= i < v.len() { unreachable_pruned_case(v[i]) } else { arbitrary() },
    )
}

/// [`unreachable_pruned`] inside a catch clause.
pub open spec fn unreachable_pruned_catch(c: CatchV) -> CatchV
    decreases c, 0nat,
{
    CatchV { body: Box::new(unreachable_pruned(*c.body)), ..c }
}

/// [`unreachable_pruned`] over a list.
pub open spec fn unreachable_pruned_catches(v: Seq<CatchV>) -> Seq<CatchV>
    decreases v, 0nat,
{
    Seq::new(
        v.len(),
        |i: int| if 0 <= i < v.len() { unreachable_pruned_catch(v[i]) } else { arbitrary() },
    )
}

/// Drops the statements of a list that follow one that terminates, everywhere in
/// `s`.
pub fn prune_unreachable(s: &mut Stmt)
    ensures
        final(s)@ == unreachable_pruned(old(s)@),
    decreases *old(s), 0nat,
{
    match s {
        Stmt::Block(items) => { prune_unreachable_vec(items); cut_tail(items); },
        Stmt::If { then_stmt, else_stmt, .. } => {
            prune_unreachable(then_stmt);
            prune_unreachable_opt(else_stmt);
        },
        Stmt::While { body, .. } => { prune_unreachable(body); },
        Stmt::DoWhile { body, .. } => { prune_unreachable(body); },
        Stmt::For { init, body, .. } => { prune_unreachable_vec(init); prune_unreachable(body); },
        Stmt::ForEach { body, .. } => { prune_unreachable(body); },
        Stmt::Switch { cases, default, .. } => {
            prune_unreachable_cases(cases);
            prune_unreachable_opt(default);
        },
        Stmt::Try { body, catches, finally } => {
            prune_unreachable(body);
            prune_unreachable_catches(catches);
            prune_unreachable_opt(finally);
        },
        Stmt::TryWithResources { resources, body, catches, finally } => {
            prune_unreachable_vec(resources);
            prune_unreachable(body);
            prune_unreachable_catches(catches);
            prune_unreachable_opt(finally);
        },
        Stmt::Synchronized { body, .. } => { prune_unreachable(body); },
        Stmt::Labeled { body, .. } => { prune_unreachable(body); },
        _ => {},
    }
}

/// `prune_unreachable` where there is a value.
pub fn prune_unreachable_opt(o: &mut Option<Box<Stmt>>)
    ensures
        opt_stmt(*final(o)) == unreachable_pruned_opt(opt_stmt(*old(o))),
    decreases *old(o), 0nat,
{
    if let Some(x) = o {
        prune_unreachable(x);
    }
}

/// `prune_unreachable` over a list.
#[verifier::loop_isolation(false)]
pub fn prune_unreachable_vec(v: &mut Vec<Stmt>)
    ensures
        stmts(final(v)@) == unreachable_pruned_seq(stmts(old(v)@)),
    decreases *old(v), 0nat,
{
    let mut i: usize = 0;
    while i < v.len()
        invariant
            i <= v.len(),
            v.len() == old(v).len(),
            forall|j: int| 0 <= j < i ==> (#[trigger] v@[j])@ == unreachable_pruned(old(v)@[j]@),
            forall|j: int| i <= j < v.len() ==> #[trigger] v@[j] == old(v)@[j],
        decreases v.len() - i,
    {
        assert(decreases_to!(*old(v) => v@[i as int]));
        prune_unreachable(&mut v[i]);
        i += 1;
    }
    assert(stmts(v@) =~= unreachable_pruned_seq(stmts(old(v)@)));
}

/// `prune_unreachable` inside a switch arm.
pub fn prune_unreachable_case(c: &mut CaseGroup)
    ensures
        final(c)@ == unreachable_pruned_case(old(c)@),
    decreases *old(c), 0nat,
{
    prune_unreachable_vec(&mut c.body);
    cut_tail(&mut c.body);
}

/// `prune_unreachable` over a list.
#[verifier::loop_isolation(false)]
pub fn prune_unreachable_cases(v: &mut Vec<CaseGroup>)
    ensures
        case_groups(final(v)@) == unreachable_pruned_cases(case_groups(old(v)@)),
    decreases *old(v), 0nat,
{
    let mut i: usize = 0;
    while i < v.len()
        invariant
            i <= v.len(),
            v.len() == old(v).len(),
            forall|j: int|
                0 <= j < i ==> (#[trigger] v@[j])@ == unreachable_pruned_case(old(v)@[j]@),
            forall|j: int| i <= j < v.len() ==> #[trigger] v@[j] == old(v)@[j],
        decreases v.len() - i,
    {
        assert(decreases_to!(*old(v) => v@[i as int]));
        prune_unreachable_case(&mut v[i]);
        i += 1;
    }
    assert(case_groups(v@) =~= unreachable_pruned_cases(case_groups(old(v)@)));
}

/// `prune_unreachable` inside a catch clause.
pub fn prune_unreachable_catch(c: &mut Catch)
    ensures
        final(c)@ == unreachable_pruned_catch(old(c)@),
    decreases *old(c), 0nat,
{
    prune_unreachable(&mut c.body);
}

/// `prune_unreachable` over a list.
#[verifier::loop_isolation(false)]
pub fn prune_unreachable_catches(v: &mut Vec<Catch>)
    ensures
        catch_list(final(v)@) == unreachable_pruned_catches(catch_list(old(v)@)),
    decreases *old(v), 0nat,
{
    let mut i: usize = 0;
    while i < v.len()
        invariant
            i <= v.len(),
            v.len() == old(v).len(),
            forall|j: int|
                0 <= j < i ==> (#[trigger] v@[j])@ == unreachable_pruned_catch(old(v)@[j]@),
            forall|j: int| i <= j < v.len() ==> #[trigger] v@[j] == old(v)@[j],
        decreases v.len() - i,
    {
        assert(decreases_to!(*old(v) => v@[i as int]));
        prune_unreachable_catch(&mut v[i]);
        i += 1;
    }
    assert(catch_list(v@) =~= unreachable_pruned_catches(catch_list(old(v)@)));
}

} // verus!
