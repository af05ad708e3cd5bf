//! What holds of declarations that are hoisted out of nested scopes.
use crate::ctor_guards::is_ctor_call;
use crate::escapes::{
    declared, escaped_hoisted, escaped_vars, escapes_in, escapes_in_captures, escapes_in_exprs,
    escapes_in_oexprs, escapes_in_opt, escapes_in_part, escapes_in_parts, loop_declared, scanned,
    scanned_case, scanned_cases, scanned_catch, scanned_catches, scanned_opt, scanned_opt_scoped,
    scanned_scoped, scanned_seq, top_decl, top_decls, uses_noted, uses_noted_exprs,
    uses_noted_oexpr, EscapesV,
};
use crate::escapes::defs_demoted;
use crate::expr::{ConcatPartV, ExprV, LambdaExprV};
use crate::order::{in_order, lemma_in_order};
use crate::rethrows::rethrows_dropped;
use crate::stack_vars::with_decls;
use crate::stmt::{CaseGroupV, CatchV, StmtV};
use crate::uses::{
    uses_local, uses_local_captures, uses_local_exprs, uses_local_oexprs, uses_local_opt,
    uses_local_part, uses_local_parts,
};
use crate::var::VarTableV;
use vstd::prelude::*;

verus! {

/// A variable that is open does not escape in an expression.
proof fn lemma_open_in(e: ExprV, open: Seq<u32>, ever: Set<u32>, v: u32)
    requires
        open.contains(v),
    ensures
        !escapes_in(e, open, ever, v),
    decreases e,
{
    match e {
        ExprV::New { args, .. } => {
            lemma_open_in_exprs(args, open, ever, v);
        },
        ExprV::NewArray { dims, init, .. } => {
            lemma_open_in_exprs(dims, open, ever, v);
            lemma_open_in_oexprs(init, open, ever, v);
        },
        ExprV::Field { owner, .. } => {
            lemma_open_in_opt(owner, open, ever, v);
        },
        ExprV::Method { owner, args, .. } => {
            lemma_open_in_opt(owner, open, ever, v);
            lemma_open_in_exprs(args, open, ever, v);
        },
        ExprV::ArrayIndex { array, index } => {
            lemma_open_in(*array, open, ever, v);
            lemma_open_in(*index, open, ever, v);
        },
        ExprV::Cast { e, .. } => {
            lemma_open_in(*e, open, ever, v);
        },
        ExprV::InstanceOf { e, .. } => {
            lemma_open_in(*e, open, ever, v);
        },
        ExprV::Un { e, .. } => {
            lemma_open_in(*e, open, ever, v);
        },
        ExprV::Bin { l, r, .. } => {
            lemma_open_in(*l, open, ever, v);
            lemma_open_in(*r, open, ever, v);
        },
        ExprV::Cond { c, t, f } => {
            lemma_open_in(*c, open, ever, v);
            lemma_open_in(*t, open, ever, v);
            lemma_open_in(*f, open, ever, v);
        },
        ExprV::Assign { target, value, .. } => {
            lemma_open_in(*target, open, ever, v);
            lemma_open_in(*value, open, ever, v);
        },
        ExprV::PreIncDec { e, .. } => {
            lemma_open_in(*e, open, ever, v);
        },
        ExprV::PostIncDec { e, .. } => {
            lemma_open_in(*e, open, ever, v);
        },
        ExprV::Lambda(l) => {
            lemma_open_in_captures(*l, open, ever, v);
        },
        ExprV::StringConcat(parts) => {
            lemma_open_in_parts(parts, open, ever, v);
        },
        ExprV::Invokedynamic { args, .. } => {
            lemma_open_in_exprs(args, open, ever, v);
        },
        ExprV::AnonNew { args, .. } => {
            lemma_open_in_exprs(args, open, ever, v);
        },
        ExprV::NewMultiArray { dims, .. } => {
            lemma_open_in_exprs(dims, open, ever, v);
        },
        _ => {},
    }
}

/// [`lemma_open_in`] where there is a value.
proof fn lemma_open_in_opt(o: Option<Box<ExprV>>, open: Seq<u32>, ever: Set<u32>, v: u32)
    requires
        open.contains(v),
    ensures
        !escapes_in_opt(o, open, ever, v),
    decreases o,
{
    if let Some(x) = o {
        lemma_open_in(*x, open, ever, v);
    }
}

/// [`lemma_open_in`] where there is a list.
proof fn lemma_open_in_oexprs(o: Option<Seq<ExprV>>, open: Seq<u32>, ever: Set<u32>, v: u32)
    requires
        open.contains(v),
    ensures
        !escapes_in_oexprs(o, open, ever, v),
    decreases o,
{
    if let Some(x) = o {
        lemma_open_in_exprs(x, open, ever, v);
    }
}

/// [`lemma_open_in`] inside the captures of a lambda.
proof fn lemma_open_in_captures(l: LambdaExprV, open: Seq<u32>, ever: Set<u32>, v: u32)
    requires
        open.contains(v),
    ensures
        !escapes_in_captures(l, open, ever, v),
    decreases l,
{
    lemma_open_in_exprs(l.captures, open, ever, v);
}

/// [`lemma_open_in`] over a list.
proof fn lemma_open_in_exprs(l: Seq<ExprV>, open: Seq<u32>, ever: Set<u32>, v: u32)
    requires
        open.contains(v),
    ensures
        !escapes_in_exprs(l, open, ever, v),
    decreases l,
{
    assert forall|i: int| 0 <= i < l.len() implies !escapes_in(#[trigger] l[i], open, ever, v) by {
        lemma_open_in(l[i], open, ever, v);
    }
}

/// [`lemma_open_in`] inside a concatenation piece.
proof fn lemma_open_in_part(p: ConcatPartV, open: Seq<u32>, ever: Set<u32>, v: u32)
    requires
        open.contains(v),
    ensures
        !escapes_in_part(p, open, ever, v),
    decreases p,
{
    if let ConcatPartV::Str(e) = p {
        lemma_open_in(e, open, ever, v);
    }
}

/// [`lemma_open_in`] over concatenation pieces.
proof fn lemma_open_in_parts(l: Seq<ConcatPartV>, open: Seq<u32>, ever: Set<u32>, v: u32)
    requires
        open.contains(v),
    ensures
        !escapes_in_parts(l, open, ever, v),
    decreases l,
{
    assert forall|i: int| 0 <= i < l.len() implies !escapes_in_part(
        #[trigger] l[i],
        open,
        ever,
        v,
    ) by {
        lemma_open_in_part(l[i], open, ever, v);
    }
}

/// Variable `v` is open and has not escaped.
pub open spec fn held(st: EscapesV, v: u32) -> bool {
    st.open.contains(v) && !st.escaped.contains(v)
}

/// Uses let go of nothing.
proof fn lemma_held_uses(e: ExprV, st: EscapesV, v: u32)
    requires
        held(st, v),
    ensures
        held(uses_noted(e, st), v),
{
    lemma_open_in(e, st.open, st.ever, v);
}

/// [`lemma_held_uses`] where there is a value.
proof fn lemma_held_oexpr(o: Option<ExprV>, st: EscapesV, v: u32)
    requires
        held(st, v),
    ensures
        held(uses_noted_oexpr(o, st), v),
{
    if let Some(e) = o {
        lemma_held_uses(e, st, v);
    }
}

/// [`lemma_held_uses`] over a list.
proof fn lemma_held_exprs(l: Seq<ExprV>, st: EscapesV, v: u32)
    requires
        held(st, v),
    ensures
        held(uses_noted_exprs(l, st), v),
    decreases l.len(),
{
    if l.len() > 0 {
        lemma_held_exprs(l.drop_last(), st, v);
        lemma_held_uses(l.last(), uses_noted_exprs(l.drop_last(), st), v);
    }
}

/// A declaration lets go of nothing.
proof fn lemma_held_declared(var: u32, st: EscapesV, v: u32)
    requires
        held(st, v),
    ensures
        held(declared(var, st), v),
{
    let i = choose|i: int| 0 <= i < st.open.len() && st.open[i] == v;
    assert(st.open.push(var)[i] == v);
}

/// A statement lets go of nothing.
#[verifier::spinoff_prover]
proof fn lemma_held(s: StmtV, st: EscapesV, v: u32)
    requires
        held(st, v),
    ensures
        held(scanned(s, st), v),
    decreases s,
{
    match s {
        StmtV::Block(items) => {
            lemma_held_seq(items, st, v);
        },
        StmtV::ExprStmt(e) => {
            lemma_held_uses(e, st, v);
        },
        StmtV::LocalDef { var, init, .. } => {
            lemma_held_oexpr(init, st, v);
            lemma_held_declared(var, uses_noted_oexpr(init, st), v);
        },
        StmtV::Return(e) => {
            lemma_held_oexpr(e, st, v);
        },
        StmtV::Throw(e) => {
            lemma_held_uses(e, st, v);
        },
        StmtV::If { cond, then_stmt, else_stmt } => {
            lemma_held_uses(cond, st, v);
            let st1 = uses_noted(cond, st);
            lemma_held(*then_stmt, st1, v);
            let st2 = scanned_scoped(*then_stmt, st1);
            assert(held(st2, v));
            if let Some(x) = else_stmt {
                lemma_held(*x, st2, v);
                assert(held(scanned_scoped(*x, st2), v));
            }
            assert(held(scanned_opt_scoped(else_stmt, st2), v));
        },
        StmtV::While { cond, body } => {
            lemma_held_uses(cond, st, v);
            let st1 = uses_noted(cond, st);
            lemma_held(*body, st1, v);
            assert(held(scanned_scoped(*body, st1), v));
        },
        StmtV::DoWhile { body, cond } => {
            lemma_held(*body, st, v);
            lemma_held_uses(cond, scanned_scoped(*body, st), v);
        },
        StmtV::For { init, cond, update, body } => {
            lemma_held_seq(init, st, v);
            let st1 = scanned_seq(init, st);
            lemma_held_oexpr(cond, st1, v);
            let st2 = uses_noted_oexpr(cond, st1);
            lemma_held_exprs(update, st2, v);
            lemma_held(*body, uses_noted_exprs(update, st2), v);
        },
        StmtV::ForEach { var, iterable, body, .. } => {
            lemma_held_uses(iterable, st, v);
            let st1 = uses_noted(iterable, st);
            lemma_held_declared(var, st1, v);
            lemma_held(*body, declared(var, st1), v);
        },
        StmtV::Switch { selector, cases, default, .. } => {
            lemma_held_uses(selector, st, v);
            let st1 = uses_noted(selector, st);
            lemma_held_cases(cases, st1, v);
            lemma_held_opt(default, scanned_cases(cases, st1), v);
        },
        StmtV::Try { body, catches, finally } => {
            lemma_held(*body, st, v);
            let st1 = scanned(*body, st);
            lemma_held_catches(catches, st1, v);
            lemma_held_opt(finally, scanned_catches(catches, st1), v);
        },
        StmtV::TryWithResources { resources, body, catches, finally } => {
            lemma_held_seq(resources, st, v);
            let st1 = scanned_seq(resources, st);
            lemma_held(*body, st1, v);
            let st2 = scanned(*body, st1);
            lemma_held_catches(catches, st2, v);
            lemma_held_opt(finally, scanned_catches(catches, st2), v);
        },
        StmtV::Synchronized { lock, body } => {
            lemma_held_uses(lock, st, v);
            lemma_held(*body, uses_noted(lock, st), v);
        },
        StmtV::MonitorEnter(e) => {
            lemma_held_uses(e, st, v);
        },
        StmtV::MonitorExit(e) => {
            lemma_held_uses(e, st, v);
        },
        StmtV::Assert { cond, msg } => {
            lemma_held_uses(cond, st, v);
            lemma_held_oexpr(msg, uses_noted(cond, st), v);
        },
        StmtV::TernaryValue { e } => {
            lemma_held_uses(e, st, v);
        },
        StmtV::Labeled { body, .. } => {
            lemma_held(*body, st, v);
        },
        _ => {},
    }
}

/// [`lemma_held`] where there is a statement.
proof fn lemma_held_opt(o: Option<Box<StmtV>>, st: EscapesV, v: u32)
    requires
        held(st, v),
    ensures
        held(scanned_opt(o, st), v),
    decreases o,
{
    if let Some(x) = o {
        lemma_held(*x, st, v);
    }
}

/// [`lemma_held`] over a list.
proof fn lemma_held_seq(l: Seq<StmtV>, st: EscapesV, v: u32)
    requires
        held(st, v),
    ensures
        held(scanned_seq(l, st), v),
    decreases l,
{
    if l.len() > 0 {
        lemma_held_seq(l.drop_last(), st, v);
        lemma_held(l.last(), scanned_seq(l.drop_last(), st), v);
    }
}

/// [`lemma_held`] over switch arms.
proof fn lemma_held_cases(l: Seq<CaseGroupV>, st: EscapesV, v: u32)
    requires
        held(st, v),
    ensures
        held(scanned_cases(l, st), v),
    decreases l,
{
    if l.len() > 0 {
        lemma_held_cases(l.drop_last(), st, v);
        lemma_held_case(l.last(), scanned_cases(l.drop_last(), st), v);
    }
}

/// [`lemma_held`] over catch clauses.
proof fn lemma_held_catches(l: Seq<CatchV>, st: EscapesV, v: u32)
    requires
        held(st, v),
    ensures
        held(scanned_catches(l, st), v),
    decreases l,
{
    if l.len() > 0 {
        lemma_held_catches(l.drop_last(), st, v);
        lemma_held_catch(l.last(), scanned_catches(l.drop_last(), st), v);
    }
}

/// [`lemma_held`] inside a switch arm.
proof fn lemma_held_case(c: CaseGroupV, st: EscapesV, v: u32)
    requires
        held(st, v),
    ensures
        held(scanned_case(c, st), v),
    decreases c,
{
    lemma_held_seq(c.body, st, v);
}

/// [`lemma_held`] inside a catch clause.
proof fn lemma_held_catch(c: CatchV, st: EscapesV, v: u32)
    requires
        held(st, v),
    ensures
        held(scanned_catch(c, st), v),
    decreases c,
{
    if c.var != u32::MAX {
        lemma_held_declared(c.var, st, v);
        lemma_held(*c.body, declared(c.var, st), v);
    } else {
        lemma_held(*c.body, st, v);
    }
}

/// What comes first in a list is scanned first.
proof fn lemma_scanned_split(l: Seq<StmtV>, n: int, st: EscapesV)
    requires
        0 <= n <= l.len(),
    ensures
        scanned_seq(l, st) == scanned_seq(l.skip(n), scanned_seq(l.take(n), st)),
    decreases l.len() - n,
{
    if n == l.len() {
        assert(l.take(n) =~= l);
        assert(l.skip(n) =~= seq![]);
    } else {
        let front = l.drop_last();
        lemma_scanned_split(front, n, st);
        assert(front.take(n) =~= l.take(n));
        assert(front.skip(n) =~= l.skip(n).drop_last());
        assert(l.skip(n).last() == l.last());
    }
}

/// Declarations with default values use no variable.
proof fn lemma_decls_quiet(decls: Seq<StmtV>, n: nat, st: EscapesV, v: u32)
    requires
        n <= decls.len(),
        forall|k: int|
            0 <= k < decls.len() ==> ((#[trigger] decls[k]) matches StmtV::LocalDef { init, .. }
                && (init matches Some(e) ==> e is Const)),
    ensures
        scanned_seq(decls.take(n as int), st).escaped == st.escaped,
        forall|k: int|
            0 <= k < n ==> ((#[trigger] decls[k]) matches StmtV::LocalDef { var, .. }
                && scanned_seq(decls.take(n as int), st).open.contains(var)),
    decreases n,
{
    if n == 0 {
        assert(decls.take(0) =~= seq![]);
    } else {
        let part = decls.take(n as int);
        assert(part.drop_last() =~= decls.take(n - 1));
        lemma_decls_quiet(decls, (n - 1) as nat, st, v);
        let st1 = scanned_seq(decls.take(n - 1), st);
        assert(part.last() == decls[n - 1]);
        if let StmtV::LocalDef { var, init, .. } = decls[n - 1] {
            let st2 = uses_noted_oexpr(init, st1);
            assert(st2.escaped =~= st1.escaped);
            let st3 = scanned(part.last(), st1);
            assert(st3.escaped =~= st1.escaped);
            assert forall|k: int|
                0 <= k < n implies ((#[trigger] decls[k]) matches StmtV::LocalDef {
                var: x,
                ..
            } && st3.open.contains(x)) by {
                if k == n - 1 {
                    if !st2.open.contains(var) {
                        assert(st3.open[st2.open.len() as int] == var);
                    }
                } else if let StmtV::LocalDef { var: x, .. } = decls[k] {
                    let i = choose|i: int| 0 <= i < st1.open.len() && st1.open[i] == x;
                    assert(st3.open[i] == x);
                }
            }
        }
    }
}

/// A body with a declaration of `v` at its top, before anything that uses `v`, does not
/// let it escape.
proof fn lemma_declared_on_top(body: StmtV, decls: Seq<StmtV>, st: EscapesV, v: u32)
    requires
        !st.escaped.contains(v),
        forall|k: int|
            0 <= k < decls.len() ==> ((#[trigger] decls[k]) matches StmtV::LocalDef { init, .. }
                && (init matches Some(e) ==> e is Const)),
        exists|k: int|
            0 <= k < decls.len() && ((#[trigger] decls[k]) matches StmtV::LocalDef { var, .. }
                && var
                == v),
        body matches StmtV::Block(items) ==> (items.len() > 0 && is_ctor_call(items[0])
            ==> !scanned(items[0], st).escaped.contains(v)),
    ensures
        !scanned(with_decls(body, decls), st).escaped.contains(v),
{
    let n = decls.len();
    let all = match with_decls(body, decls) {
        StmtV::Block(l) => l,
        _ => arbitrary(),
    };
    let (lead, rest) = match body {
        StmtV::Block(items) => if items.len() > 0 && is_ctor_call(items[0]) {
            (1int, items.skip(1))
        } else {
            (0int, items)
        },
        _ => (0int, seq![body]),
    };
    assert(all.skip(lead).take(n as int) =~= decls);
    let st1 = scanned_seq(all.take(lead), st);
    assert(!st1.escaped.contains(v)) by {
        if lead == 1 {
            assert(all.take(1).drop_last() =~= seq![]);
            assert(scanned_seq(seq![], st) == st);
        } else {
            assert(all.take(0) =~= seq![]);
        }
    }
    lemma_scanned_split(all, lead, st);
    let tail = all.skip(lead);
    lemma_scanned_split(tail, n as int, st1);
    assert(decls.take(n as int) =~= decls);
    lemma_decls_quiet(decls, n, st1, v);
    let st2 = scanned_seq(decls, st1);
    let k = choose|k: int|
        0 <= k < decls.len() && ((#[trigger] decls[k]) matches StmtV::LocalDef { var, .. } && var
            == v);
    assert(decls[k] is LocalDef);
    assert(st2.open.contains(v));
    lemma_held_seq(tail.skip(n as int), st2, v);
}

/// The body that hoisted declarations go to the top of, and the variables that are
/// declared there.
pub open spec fn hoisting(body: StmtV, vt: VarTableV) -> (StmtV, Set<u32>) {
    let plain = rethrows_dropped(body);
    let escaped = escaped_vars(body);
    let (placed, done) = loop_declared(
        plain,
        defs_demoted(plain, escaped, vt),
        in_order(escaped).reverse(),
    );
    (placed, escaped.difference(done))
}

/// A call of another constructor stands first and uses `v`.
pub open spec fn ctor_call_uses(body: StmtV, v: u32) -> bool {
    body matches StmtV::Block(items) && (items.len() > 0 && is_ctor_call(items[0]) && (items[0]
        matches StmtV::ExprStmt(e) && uses_local(e, v)))
}

/// A variable that was used outside the scope of its declaration and is now declared at
/// the top of the body is no longer used outside its scope. A call of another constructor
/// stays first, so it may not use the variable.
pub proof fn law_hoisted_variables_stay_in_scope(body: StmtV, vt: VarTableV, v: u32)
    requires
        hoisting(body, vt).1.contains(v),
        !ctor_call_uses(hoisting(body, vt).0, v),
    ensures
        !escaped_vars(escaped_hoisted(body, vt)).contains(v),
{
    let (placed, rest) = hoisting(body, vt);
    let order = in_order(rest);
    let decls = top_decls(placed, vt, order);
    let result = escaped_hoisted(body, vt);
    lemma_in_order(rest);
    assert(escaped_vars(body).contains(v));
    assert(result == with_decls(placed, decls));
    assert(order.contains(v));
    let k = choose|k: int| 0 <= k < order.len() && order[k] == v;
    assert(decls[k] == top_decl(placed, vt, v));
    assert forall|j: int|
        0 <= j < decls.len() implies ((#[trigger] decls[j]) matches StmtV::LocalDef {
        init,
        ..
    } && (init matches Some(e) ==> e is Const)) by {
        assert(decls[j] == top_decl(placed, vt, order[j]));
    }
    let start = EscapesV { open: seq![], ever: Set::empty(), escaped: Set::empty() };
    lemma_quiet_head(placed, start, v);
    lemma_declared_on_top(placed, decls, start, v);
    let once = scanned(result, start);
    let again = EscapesV { open: seq![], ..once };
    lemma_quiet_head(placed, again, v);
    lemma_declared_on_top(placed, decls, again, v);
}

/// A first call of another constructor that does not use `v` does not let it escape.
proof fn lemma_quiet_head(body: StmtV, st: EscapesV, v: u32)
    requires
        !ctor_call_uses(body, v),
        !st.escaped.contains(v),
    ensures
        body matches StmtV::Block(items) ==> (items.len() > 0 && is_ctor_call(items[0])
            ==> !scanned(items[0], st).escaped.contains(v)),
{
    if let StmtV::Block(items) = body {
        if items.len() > 0 && is_ctor_call(items[0]) {
            if let StmtV::ExprStmt(e) = items[0] {
                lemma_unused_in(e, st.open, st.ever, v);
            }
        }
    }
}

/// A variable that does not occur does not escape.
proof fn lemma_unused_in(e: ExprV, open: Seq<u32>, ever: Set<u32>, v: u32)
    requires
        !uses_local(e, v),
    ensures
        !escapes_in(e, open, ever, v),
    decreases e,
{
    match e {
        ExprV::New { args, .. } => {
            lemma_unused_in_exprs(args, open, ever, v);
        },
        ExprV::NewArray { dims, init, .. } => {
            lemma_unused_in_exprs(dims, open, ever, v);
            lemma_unused_in_oexprs(init, open, ever, v);
        },
        ExprV::Field { owner, .. } => {
            lemma_unused_in_opt(owner, open, ever, v);
        },
        ExprV::Method { owner, args, .. } => {
            lemma_unused_in_opt(owner, open, ever, v);
            lemma_unused_in_exprs(args, open, ever, v);
        },
        ExprV::ArrayIndex { array, index } => {
            lemma_unused_in(*array, open, ever, v);
            lemma_unused_in(*index, open, ever, v);
        },
        ExprV::Cast { e, .. } => {
            lemma_unused_in(*e, open, ever, v);
        },
        ExprV::InstanceOf { e, .. } => {
            lemma_unused_in(*e, open, ever, v);
        },
        ExprV::Un { e, .. } => {
            lemma_unused_in(*e, open, ever, v);
        },
        ExprV::Bin { l, r, .. } => {
            lemma_unused_in(*l, open, ever, v);
            lemma_unused_in(*r, open, ever, v);
        },
        ExprV::Cond { c, t, f } => {
            lemma_unused_in(*c, open, ever, v);
            lemma_unused_in(*t, open, ever, v);
            lemma_unused_in(*f, open, ever, v);
        },
        ExprV::Assign { target, value, .. } => {
            lemma_unused_in(*target, open, ever, v);
            lemma_unused_in(*value, open, ever, v);
        },
        ExprV::PreIncDec { e, .. } => {
            lemma_unused_in(*e, open, ever, v);
        },
        ExprV::PostIncDec { e, .. } => {
            lemma_unused_in(*e, open, ever, v);
        },
        ExprV::Lambda(l) => {
            lemma_unused_in_captures(*l, open, ever, v);
        },
        ExprV::StringConcat(parts) => {
            lemma_unused_in_parts(parts, open, ever, v);
        },
        ExprV::Invokedynamic { args, .. } => {
            lemma_unused_in_exprs(args, open, ever, v);
        },
        ExprV::AnonNew { args, .. } => {
            lemma_unused_in_exprs(args, open, ever, v);
        },
        ExprV::NewMultiArray { dims, .. } => {
            lemma_unused_in_exprs(dims, open, ever, v);
        },
        _ => {},
    }
}

/// [`lemma_unused_in`] where there is a value.
proof fn lemma_unused_in_opt(o: Option<Box<ExprV>>, open: Seq<u32>, ever: Set<u32>, v: u32)
    requires
        !uses_local_opt(o, v),
    ensures
        !escapes_in_opt(o, open, ever, v),
    decreases o,
{
    if let Some(x) = o {
        lemma_unused_in(*x, open, ever, v);
    }
}

/// [`lemma_unused_in`] where there is a list.
proof fn lemma_unused_in_oexprs(o: Option<Seq<ExprV>>, open: Seq<u32>, ever: Set<u32>, v: u32)
    requires
        !uses_local_oexprs(o, v),
    ensures
        !escapes_in_oexprs(o, open, ever, v),
    decreases o,
{
    if let Some(x) = o {
        lemma_unused_in_exprs(x, open, ever, v);
    }
}

/// [`lemma_unused_in`] inside the captures of a lambda.
proof fn lemma_unused_in_captures(l: LambdaExprV, open: Seq<u32>, ever: Set<u32>, v: u32)
    requires
        !uses_local_captures(l, v),
    ensures
        !escapes_in_captures(l, open, ever, v),
    decreases l,
{
    lemma_unused_in_exprs(l.captures, open, ever, v);
}

/// [`lemma_unused_in`] over a list.
proof fn lemma_unused_in_exprs(l: Seq<ExprV>, open: Seq<u32>, ever: Set<u32>, v: u32)
    requires
        !uses_local_exprs(l, v),
    ensures
        !escapes_in_exprs(l, open, ever, v),
    decreases l,
{
    assert forall|i: int| 0 <= i < l.len() implies !escapes_in(#[trigger] l[i], open, ever, v) by {
        assert(!uses_local(l[i], v));
        lemma_unused_in(l[i], open, ever, v);
    }
}

/// [`lemma_unused_in`] inside a concatenation piece.
proof fn lemma_unused_in_part(p: ConcatPartV, open: Seq<u32>, ever: Set<u32>, v: u32)
    requires
        !uses_local_part(p, v),
    ensures
        !escapes_in_part(p, open, ever, v),
    decreases p,
{
    if let ConcatPartV::Str(e) = p {
        lemma_unused_in(e, open, ever, v);
    }
}

/// [`lemma_unused_in`] over concatenation pieces.
proof fn lemma_unused_in_parts(l: Seq<ConcatPartV>, open: Seq<u32>, ever: Set<u32>, v: u32)
    requires
        !uses_local_parts(l, v),
    ensures
        !escapes_in_parts(l, open, ever, v),
    decreases l,
{
    assert forall|i: int| 0 <= i < l.len() implies !escapes_in_part(
        #[trigger] l[i],
        open,
        ever,
        v,
    ) by {
        assert(!uses_local_part(l[i], v));
        lemma_unused_in_part(l[i], open, ever, v);
    }
}

} // verus!
