//! `assert` statements recovered from the tests of `$assertionsDisabled`.
use crate::expr::{clone_expr, exprs, opt_expr, BinOp, ConstVal, ConstValV, Expr, ExprV, UnOp};
use crate::labels::{invert, inverted};
use crate::stmt::{
    case_groups, catch_list, is_empty_block, opt_stmt, stmts, CaseGroup, CaseGroupV, Catch, CatchV,
    Stmt, StmtV,
};
use crate::types::str_eq;
use vstd::prelude::*;

verus! {

/// The constant zero.
pub open spec fn zero() -> ExprV {
    ExprV::Const(ConstValV::Int(0))
}

/// Whether `e` is the constant zero.
fn is_zero(e: &Expr) -> (r: bool)
    ensures
        r == (e@ == zero()),
{
    match e {
        Expr::Const(ConstVal::Int(0)) => true,
        _ => false,
    }
}

/// What `e` says of `$assertionsDisabled`: that it is true, that it is false, or
/// nothing.
pub open spec fn assertions_off(e: ExprV) -> Option<bool>
    decreases e,
{
    match e {
        ExprV::Field { name, .. } => if name == "$assertionsDisabled"@ {
            Some(true)
        } else {
            None
        },
        ExprV::Un { op, e: x } => if op is Not {
            flipped(assertions_off(*x))
        } else {
            None
        },
        ExprV::Bin { op, l, r, .. } => if *r != zero() {
            None
        } else if op is Ne {
            assertions_off(*l)
        } else if op is Eq {
            flipped(assertions_off(*l))
        } else {
            None
        },
        _ => None,
    }
}

/// The opposite, where there is a statement.
pub open spec fn flipped(p: Option<bool>) -> Option<bool> {
    match p {
        Some(b) => Some(!b),
        None => None,
    }
}

/// What `e` says of `$assertionsDisabled`.
fn ad_polarity(e: &Expr) -> (r: Option<bool>)
    ensures
        r == assertions_off(e@),
    decreases e,
{
    match e {
        Expr::Field { name, .. } => if str_eq(name.as_str(), "$assertionsDisabled") {
            Some(true)
        } else {
            None
        },
        Expr::Un { op: UnOp::Not, e: x } => match ad_polarity(x) {
            Some(p) => Some(!p),
            None => None,
        },
        Expr::Bin { op, l, r, .. } => {
            if !is_zero(r) {
                return None;
            }
            match op {
                BinOp::Ne => ad_polarity(l),
                BinOp::Eq => match ad_polarity(l) {
                    Some(p) => Some(!p),
                    None => None,
                },
                _ => None,
            }
        },
        _ => None,
    }
}

/// `throw new AssertionError(..)`.
pub open spec fn throws_assertion(s: StmtV) -> bool {
    s matches StmtV::Throw(e) && (e matches ExprV::New { cls, .. } && cls
        == "java/lang/AssertionError"@)
}

/// The first argument of a thrown `AssertionError`.
pub open spec fn thrown_message(s: StmtV) -> Option<ExprV> {
    match s {
        StmtV::Throw(e) => match e {
            ExprV::New { args, .. } => if args.len() > 0 {
                Some(args[0])
            } else {
                None
            },
            _ => None,
        },
        _ => None,
    }
}

/// The statements of a block, or a single `throw`.
pub open spec fn throw_list(s: StmtV) -> Seq<StmtV> {
    match s {
        StmtV::Block(v) => v,
        StmtV::Throw(_) => seq![s],
        _ => seq![],
    }
}

/// The message with which `s` fails an assertion: `s` does nothing but throw
/// `AssertionError`s, and the last one counts.
pub open spec fn failure_message(s: StmtV) -> Option<Option<ExprV>> {
    let v = throw_list(s);
    if v.len() > 0 && forall|i: int| 0 <= i < v.len() ==> throws_assertion(#[trigger] v[i]) {
        Some(thrown_message(v.last()))
    } else {
        None
    }
}

/// The message of `throw new AssertionError(..)`.
fn assertion_throw(s: &Stmt) -> (r: Option<Option<&Expr>>)
    ensures
        r is Some == throws_assertion(s@),
        r matches Some(m) ==> (match m {
            Some(x) => thrown_message(s@) == Some(x@),
            None => thrown_message(s@) is None,
        }),
{
    proof {
        reveal_with_fuel(Expr::view, 2);
    }
    match s {
        Stmt::Throw(Expr::New { cls, args, .. }) => {
            if !str_eq(cls.as_str(), "java/lang/AssertionError") {
                return None;
            }
            assert(exprs(args@).len() == args@.len());
            if args.len() > 0 {
                assert(exprs(args@)[0] == args@[0]@);
                Some(Some(&args[0]))
            } else {
                Some(None)
            }
        },
        _ => None,
    }
}

/// The message with which `s` fails an assertion.
#[verifier::loop_isolation(false)]
fn as_assert_throw(s: &Stmt) -> (r: Option<Option<Expr>>)
    ensures
        match r {
            Some(m) => failure_message(s@) == Some(opt_expr(m)),
            None => failure_message(s@) is None,
        },
{
    match s {
        Stmt::Block(v) => {
            let ghost all = stmts(v@);
            let mut msg: Option<Expr> = None;
            let mut i: usize = 0;
            while i < v.len()
                invariant
                    i <= v.len(),
                    forall|j: int| 0 <= j < i ==> throws_assertion(#[trigger] all[j]),
                    i > 0 ==> opt_expr(msg) == thrown_message(all[i - 1]),
                decreases v.len() - i,
            {
                assert(all[i as int] == v@[i as int]@);
                match assertion_throw(&v[i]) {
                    Some(m) => {
                        msg = match m {
                            Some(x) => Some(clone_expr(x)),
                            None => None,
                        };
                    },
                    None => {
                        return None;
                    },
                }
                i += 1;
            }
            if v.len() > 0 {
                Some(msg)
            } else {
                None
            }
        },
        Stmt::Throw(_) => {
            assert(throw_list(s@)[0] == s@);
            match assertion_throw(s) {
                Some(m) => match m {
                    Some(x) => Some(Some(clone_expr(x))),
                    None => Some(None),
                },
                None => None,
            }
        },
        _ => None,
    }
}

/// There is no statement, or an empty block.
pub open spec fn is_blank(o: Option<Box<StmtV>>) -> bool {
    o matches Some(x) ==> is_empty_block(*x)
}

/// The message of a failure, where there is a statement.
pub open spec fn opt_failure(o: Option<Box<StmtV>>) -> Option<Option<ExprV>> {
    match o {
        Some(x) => failure_message(*x),
        None => None,
    }
}

/// The `assert` that a guarded statement stands for: `throw AE(m)` is
/// `assert false : m`, `if (g) {} else throw AE(m)` is `assert g : m`, and
/// `if (g) throw AE(m)` is `assert !g : m`.
pub open spec fn guarded_assert(s: StmtV) -> Option<StmtV> {
    match failure_message(s) {
        Some(msg) => Some(StmtV::Assert { cond: zero(), msg }),
        None => match s {
            StmtV::If { cond, then_stmt, else_stmt } => if is_empty_block(*then_stmt)
                && opt_failure(else_stmt) is Some {
                Some(StmtV::Assert { cond, msg: opt_failure(else_stmt).unwrap() })
            } else if is_blank(else_stmt) && failure_message(*then_stmt) is Some {
                Some(
                    StmtV::Assert {
                        cond: inverted(cond),
                        msg: failure_message(*then_stmt).unwrap(),
                    },
                )
            } else {
                None
            },
            _ => None,
        },
    }
}

/// The statement that runs when assertions are on, where an `if` tests nothing else.
pub open spec fn guarded_side(s: StmtV) -> Option<StmtV> {
    match s {
        StmtV::If { cond, then_stmt, else_stmt } => match assertions_off(cond) {
            Some(off) => if off {
                if is_empty_block(*then_stmt) && else_stmt is Some {
                    Some(*else_stmt.unwrap())
                } else {
                    None
                }
            } else if is_blank(else_stmt) {
                Some(*then_stmt)
            } else {
                None
            },
            None => None,
        },
        _ => None,
    }
}

/// The `assert` that a statement stands for.
pub open spec fn as_assert(s: StmtV) -> Option<StmtV> {
    match guarded_side(s) {
        Some(g) => match guarded_assert(g) {
            Some(a) => Some(a),
            None => match g {
                StmtV::Block(v) => if v.len() == 1 {
                    guarded_assert(v[0])
                } else {
                    None
                },
                _ => None,
            },
        },
        None => None,
    }
}

/// The `assert` that a guarded statement stands for.
fn match_assert_inner(s: &Stmt) -> (r: Option<Stmt>)
    ensures
        match r {
            Some(a) => guarded_assert(s@) == Some(a@),
            None => guarded_assert(s@) is None,
        },
{
    if let Some(msg) = as_assert_throw(s) {
        return Some(Stmt::Assert { cond: Expr::Const(ConstVal::Int(0)), msg });
    }
    if let Stmt::If { cond, then_stmt, else_stmt } = s {
        assert(opt_stmt(*else_stmt) == (match else_stmt {
            Some(x) => Some(Box::new(x@)),
            None => None,
        }));
        if then_stmt.is_empty_block() {
            if let Some(e) = else_stmt {
                if let Some(msg) = as_assert_throw(e) {
                    return Some(Stmt::Assert { cond: clone_expr(cond), msg });
                }
            }
        }
        let blank = match else_stmt {
            Some(e) => e.is_empty_block(),
            None => true,
        };
        if blank {
            if let Some(msg) = as_assert_throw(then_stmt) {
                return Some(Stmt::Assert { cond: invert(clone_expr(cond)), msg });
            }
        }
    }
    None
}

/// The statement that runs when assertions are on.
fn guarded(s: &Stmt) -> (r: Option<&Stmt>)
    ensures
        match r {
            Some(g) => guarded_side(s@) == Some(g@),
            None => guarded_side(s@) is None,
        },
{
    match s {
        Stmt::If { cond, then_stmt, else_stmt } => {
            assert(opt_stmt(*else_stmt) == (match else_stmt {
                Some(x) => Some(Box::new(x@)),
                None => None,
            }));
            match ad_polarity(cond) {
                Some(off) => if off {
                    if !then_stmt.is_empty_block() {
                        return None;
                    }
                    match else_stmt {
                        Some(g) => Some(&**g),
                        None => None,
                    }
                } else {
                    if let Some(e) = else_stmt {
                        if !e.is_empty_block() {
                            return None;
                        }
                    }
                    Some(&**then_stmt)
                },
                None => None,
            }
        },
        _ => None,
    }
}

/// The `assert` that a statement stands for.
pub fn match_assert(s: &Stmt) -> (r: Option<Stmt>)
    ensures
        match r {
            Some(a) => as_assert(s@) == Some(a@),
            None => as_assert(s@) is None,
        },
{
    let g = match guarded(s) {
        Some(g) => g,
        None => {
            return None;
        },
    };
    if let Some(a) = match_assert_inner(g) {
        return Some(a);
    }
    if let Stmt::Block(v) = g {
        assert(stmts(v@).len() == v@.len());
        if v.len() == 1 {
            assert(stmts(v@)[0] == v@[0]@);
            return match_assert_inner(&v[0]);
        }
    }
    None
}

/// What a statement of a block becomes.
pub open spec fn asserted_item(s: StmtV) -> StmtV
    decreases s, 1nat,
{
    let x = asserts_restored(s);
    match as_assert(x) {
        Some(a) => a,
        None => x,
    }
}

/// The statements of a block with its `assert`s restored.
pub open spec fn asserted_list(v: Seq<StmtV>) -> Seq<StmtV>
    decreases v, 0nat,
{
    Seq::new(v.len(), |i: int| if 0 <= i < v.len() { asserted_item(v[i]) } else { arbitrary() })
}

/// `s` with the `assert` statements in its blocks restored.
pub open spec fn asserts_restored(s: StmtV) -> StmtV
    decreases s, 0nat,
{
    match s {
        StmtV::Block(items) => StmtV::Block(asserted_list(items)),
        StmtV::If { cond, then_stmt, else_stmt } => StmtV::If {
            cond,
            then_stmt: Box::new(asserts_restored(*then_stmt)),
            else_stmt: asserts_restored_opt(else_stmt),
        },
        StmtV::While { cond, body } => StmtV::While {
            cond,
            body: Box::new(asserts_restored(*body)),
        },
        StmtV::DoWhile { body, cond } => StmtV::DoWhile {
            body: Box::new(asserts_restored(*body)),
            cond,
        },
        StmtV::For { init, cond, update, body } => StmtV::For {
            init: asserts_restored_seq(init),
            cond,
            update,
            body: Box::new(asserts_restored(*body)),
        },
        StmtV::ForEach { var, iterable, is_array, body } => StmtV::ForEach {
            var,
            iterable,
            is_array,
            body: Box::new(asserts_restored(*body)),
        },
        StmtV::Switch { selector, cases, default, on_string } => StmtV::Switch {
            selector,
            cases: asserts_restored_cases(cases),
            default: asserts_restored_opt(default),
            on_string,
        },
        StmtV::Try { body, catches, finally } => StmtV::Try {
            body: Box::new(asserts_restored(*body)),
            catches: asserts_restored_catches(catches),
            finally: asserts_restored_opt(finally),
        },
        StmtV::TryWithResources { resources, body, catches, finally } => StmtV::TryWithResources {
            resources: asserts_restored_seq(resources),
            body: Box::new(asserts_restored(*body)),
            catches: asserts_restored_catches(catches),
            finally: asserts_restored_opt(finally),
        },
        StmtV::Synchronized { lock, body } => StmtV::Synchronized {
            lock,
            body: Box::new(asserts_restored(*body)),
        },
        StmtV::Labeled { label, body } => StmtV::Labeled {
            label,
            body: Box::new(asserts_restored(*body)),
        },
        _ => s,
    }
}

/// [`asserts_restored`] where there is a value.
pub open spec fn asserts_restored_opt(o: Option<Box<StmtV>>) -> Option<Box<StmtV>>
    decreases o, 0nat,
{
    match o {
        Some(x) => Some(Box::new(asserts_restored(*x))),
        None => None,
    }
}

/// [`asserts_restored`] over a list.
pub open spec fn asserts_restored_seq(v: Seq<StmtV>) -> Seq<StmtV>
    decreases v, 0nat,
{
    Seq::new(v.len(), |i: int| if 0 <= i < v.len() { asserts_restored(v[i]) } else { arbitrary() })
}

/// [`asserts_restored`] inside a switch arm.
pub open spec fn asserts_restored_case(c: CaseGroupV) -> CaseGroupV
    decreases c, 0nat,
{
    CaseGroupV { body: asserts_restored_seq(c.body), ..c }
}

/// [`asserts_restored`] over a list.
pub open spec fn asserts_restored_cases(v: Seq<CaseGroupV>) -> Seq<CaseGroupV>
    decreases v, 0nat,
{
    Seq::new(
        v.len(),
        |i: int| if 0 <= i < v.len() { asserts_restored_case(v[i]) } else { arbitrary() },
    )
}

/// [`asserts_restored`] inside a catch clause.
pub open spec fn asserts_restored_catch(c: CatchV) -> CatchV
    decreases c, 0nat,
{
    CatchV { body: Box::new(asserts_restored(*c.body)), ..c }
}

/// [`asserts_restored`] over a list.
pub open spec fn asserts_restored_catches(v: Seq<CatchV>) -> Seq<CatchV>
    decreases v, 0nat,
{
    Seq::new(
        v.len(),
        |i: int| if 0 <= i < v.len() { asserts_restored_catch(v[i]) } else { arbitrary() },
    )
}

/// Restores the `assert` statements in the blocks of `s`.
pub fn restore_asserts(s: &mut Stmt)
    ensures
        final(s)@ == asserts_restored(old(s)@),
    decreases *old(s), 0nat,
{
    match s {
        Stmt::Block(items) => restore_asserts_list(items),
        Stmt::If { then_stmt, else_stmt, .. } => {
            restore_asserts(then_stmt);
            restore_asserts_opt(else_stmt);
        },
        Stmt::While { body, .. } => { restore_asserts(body); },
        Stmt::DoWhile { body, .. } => { restore_asserts(body); },
        Stmt::For { init, body, .. } => { restore_asserts_vec(init); restore_asserts(body); },
        Stmt::ForEach { body, .. } => { restore_asserts(body); },
        Stmt::Switch { cases, default, .. } => {
            restore_asserts_cases(cases);
            restore_asserts_opt(default);
        },
        Stmt::Try { body, catches, finally } => {
            restore_asserts(body);
            restore_asserts_catches(catches);
            restore_asserts_opt(finally);
        },
        Stmt::TryWithResources { resources, body, catches, finally } => {
            restore_asserts_vec(resources);
            restore_asserts(body);
            restore_asserts_catches(catches);
            restore_asserts_opt(finally);
        },
        Stmt::Synchronized { body, .. } => { restore_asserts(body); },
        Stmt::Labeled { body, .. } => { restore_asserts(body); },
        _ => {},
    }
}

/// `restore_asserts` where there is a value.
pub fn restore_asserts_opt(o: &mut Option<Box<Stmt>>)
    ensures
        opt_stmt(*final(o)) == asserts_restored_opt(opt_stmt(*old(o))),
    decreases *old(o), 0nat,
{
    if let Some(x) = o {
        restore_asserts(x);
    }
}

/// `restore_asserts` over a list.
#[verifier::loop_isolation(false)]
pub fn restore_asserts_vec(v: &mut Vec<Stmt>)
    ensures
        stmts(final(v)@) == asserts_restored_seq(stmts(old(v)@)),
    decreases *old(v), 0nat,
{
    let mut i: usize = 0;
    while i < v.len()
        invariant
            i <= v.len(),
            v.len() == old(v).len(),
            forall|j: int| 0 <= j < i ==> (#[trigger] v@[j])@ == asserts_restored(old(v)@[j]@),
            forall|j: int| i <= j < v.len() ==> #[trigger] v@[j] == old(v)@[j],
        decreases v.len() - i,
    {
        assert(decreases_to!(*old(v) => v@[i as int]));
        restore_asserts(&mut v[i]);
        i += 1;
    }
    assert(stmts(v@) =~= asserts_restored_seq(stmts(old(v)@)));
}

/// `restore_asserts` inside a switch arm.
pub fn restore_asserts_case(c: &mut CaseGroup)
    ensures
        final(c)@ == asserts_restored_case(old(c)@),
    decreases *old(c), 0nat,
{
    restore_asserts_vec(&mut c.body);
}

/// `restore_asserts` over a list.
#[verifier::loop_isolation(false)]
pub fn restore_asserts_cases(v: &mut Vec<CaseGroup>)
    ensures
        case_groups(final(v)@) == asserts_restored_cases(case_groups(old(v)@)),
    decreases *old(v), 0nat,
{
    let mut i: usize = 0;
    while i < v.len()
        invariant
            i <= v.len(),
            v.len() == old(v).len(),
            forall|j: int| 0 <= j < i ==> (#[trigger] v@[j])@ == asserts_restored_case(old(v)@[j]@),
            forall|j: int| i <= j < v.len() ==> #[trigger] v@[j] == old(v)@[j],
        decreases v.len() - i,
    {
        assert(decreases_to!(*old(v) => v@[i as int]));
        restore_asserts_case(&mut v[i]);
        i += 1;
    }
    assert(case_groups(v@) =~= asserts_restored_cases(case_groups(old(v)@)));
}

/// `restore_asserts` inside a catch clause.
pub fn restore_asserts_catch(c: &mut Catch)
    ensures
        final(c)@ == asserts_restored_catch(old(c)@),
    decreases *old(c), 0nat,
{
    restore_asserts(&mut c.body);
}

/// `restore_asserts` over a list.
#[verifier::loop_isolation(false)]
pub fn restore_asserts_catches(v: &mut Vec<Catch>)
    ensures
        catch_list(final(v)@) == asserts_restored_catches(catch_list(old(v)@)),
    decreases *old(v), 0nat,
{
    let mut i: usize = 0;
    while i < v.len()
        invariant
            i <= v.len(),
            v.len() == old(v).len(),
            forall|j: int|
                0 <= j < i ==> (#[trigger] v@[j])@ == asserts_restored_catch(old(v)@[j]@),
            forall|j: int| i <= j < v.len() ==> #[trigger] v@[j] == old(v)@[j],
        decreases v.len() - i,
    {
        assert(decreases_to!(*old(v) => v@[i as int]));
        restore_asserts_catch(&mut v[i]);
        i += 1;
    }
    assert(catch_list(v@) =~= asserts_restored_catches(catch_list(old(v)@)));
}

/// Restores the `assert` statements of a block.
#[verifier::loop_isolation(false)]
fn restore_asserts_list(v: &mut Vec<Stmt>)
    ensures
        stmts(final(v)@) == asserted_list(stmts(old(v)@)),
    decreases *old(v), 0nat,
{
    let mut i: usize = 0;
    while i < v.len()
        invariant
            i <= v.len(),
            v.len() == old(v).len(),
            forall|j: int| 0 <= j < i ==> (#[trigger] v@[j])@ == asserted_item(old(v)@[j]@),
            forall|j: int| i <= j < v.len() ==> #[trigger] v@[j] == old(v)@[j],
        decreases v.len() - i,
    {
        assert(decreases_to!(*old(v) => v@[i as int]));
        restore_assert_item(&mut v[i]);
        i += 1;
    }
    assert(stmts(v@) =~= asserted_list(stmts(old(v)@)));
}

/// Restores one statement of a block.
fn restore_assert_item(s: &mut Stmt)
    ensures
        final(s)@ == asserted_item(old(s)@),
    decreases *old(s), 1nat,
{
    restore_asserts(s);
    if let Some(a) = match_assert(s) {
        *s = a;
    }
}

} // verus!
