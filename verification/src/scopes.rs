//! What holds of declarations once they are put in order.
use crate::declarations::{
    deduped, deduped_case, deduped_cases, deduped_catch, deduped_catches, deduped_opt, deduped_seq,
};
use crate::escapes::{default_init, missing_decl, missing_vars};
use crate::order::{in_order, lemma_in_order};
use crate::stack_vars::with_decls;
use crate::stmt::{CaseGroupV, CatchV, StmtV};
use crate::uses::{declares, declares_seq, stmt_uses, stmt_uses_seq, uses_local, uses_local_oexpr};
use crate::var::{is_param, VarTableV};
use vstd::prelude::*;

verus! {

/// No declaration of `s` repeats one that is in scope, when those of `scope` are: taking
/// repeated declarations out again changes nothing.
pub proof fn law_declared_once(s: StmtV, scope: Seq<u32>)
    ensures
        deduped(deduped(s, scope).0, scope) == deduped(s, scope),
    decreases s,
{
    match s {
        StmtV::Block(items) => {
            lemma_once_seq(items, scope);
        },
        StmtV::LocalDef { var, init, .. } => {
            assert(deduped_seq(seq![], scope).0 =~= seq![]);
        },
        StmtV::If { then_stmt, else_stmt, .. } => {
            law_declared_once(*then_stmt, scope);
            lemma_once_opt(else_stmt, deduped(*then_stmt, scope).1);
        },
        StmtV::While { body, .. } => {
            law_declared_once(*body, scope);
        },
        StmtV::DoWhile { body, .. } => {
            law_declared_once(*body, scope);
        },
        StmtV::For { init, body, .. } => {
            lemma_once_seq(init, scope);
            law_declared_once(*body, deduped_seq(init, scope).1);
        },
        StmtV::ForEach { var, body, .. } => {
            law_declared_once(*body, scope.push(var));
        },
        StmtV::Switch { cases, default, .. } => {
            lemma_once_cases(cases, scope);
            lemma_once_opt(default, deduped_cases(cases, scope).1);
        },
        StmtV::Try { body, catches, finally } => {
            law_declared_once(*body, scope);
            let scope1 = deduped(*body, scope).1;
            lemma_once_catches(catches, scope1);
            lemma_once_opt(finally, deduped_catches(catches, scope1).1);
        },
        StmtV::TryWithResources { resources, body, catches, finally } => {
            lemma_once_seq(resources, scope);
            let scope1 = deduped_seq(resources, scope).1;
            law_declared_once(*body, scope1);
            let scope2 = deduped(*body, scope1).1;
            lemma_once_catches(catches, scope2);
            lemma_once_opt(finally, deduped_catches(catches, scope2).1);
        },
        StmtV::Synchronized { body, .. } => {
            law_declared_once(*body, scope);
        },
        StmtV::Labeled { body, .. } => {
            law_declared_once(*body, scope);
        },
        _ => {},
    }
}

/// [`law_declared_once`] where there is a statement.
proof fn lemma_once_opt(o: Option<Box<StmtV>>, scope: Seq<u32>)
    ensures
        deduped_opt(deduped_opt(o, scope).0, scope) == deduped_opt(o, scope),
    decreases o,
{
    if let Some(x) = o {
        law_declared_once(*x, scope);
    }
}

/// [`law_declared_once`] over a list.
proof fn lemma_once_seq(v: Seq<StmtV>, scope: Seq<u32>)
    ensures
        deduped_seq(deduped_seq(v, scope).0, scope) == deduped_seq(v, scope),
    decreases v,
{
    if v.len() > 0 {
        let (front, scope1) = deduped_seq(v.drop_last(), scope);
        lemma_once_seq(v.drop_last(), scope);
        law_declared_once(v.last(), scope1);
        let all = deduped_seq(v, scope).0;
        assert(all.drop_last() =~= front);
    }
}

/// [`law_declared_once`] over switch arms.
proof fn lemma_once_cases(v: Seq<CaseGroupV>, scope: Seq<u32>)
    ensures
        deduped_cases(deduped_cases(v, scope).0, scope) == deduped_cases(v, scope),
    decreases v,
{
    if v.len() > 0 {
        let (front, scope1) = deduped_cases(v.drop_last(), scope);
        lemma_once_cases(v.drop_last(), scope);
        lemma_once_case(v.last(), scope1);
        let all = deduped_cases(v, scope).0;
        assert(all.drop_last() =~= front);
    }
}

/// [`law_declared_once`] over catch clauses.
proof fn lemma_once_catches(v: Seq<CatchV>, scope: Seq<u32>)
    ensures
        deduped_catches(deduped_catches(v, scope).0, scope) == deduped_catches(v, scope),
    decreases v,
{
    if v.len() > 0 {
        let (front, scope1) = deduped_catches(v.drop_last(), scope);
        lemma_once_catches(v.drop_last(), scope);
        lemma_once_catch(v.last(), scope1);
        let all = deduped_catches(v, scope).0;
        assert(all.drop_last() =~= front);
    }
}

/// [`law_declared_once`] inside a switch arm.
proof fn lemma_once_case(c: CaseGroupV, scope: Seq<u32>)
    ensures
        deduped_case(deduped_case(c, scope).0, scope) == deduped_case(c, scope),
    decreases c,
{
    lemma_once_seq(c.body, scope);
}

/// [`law_declared_once`] inside a catch clause.
proof fn lemma_once_catch(c: CatchV, scope: Seq<u32>)
    ensures
        deduped_catch(deduped_catch(c, scope).0, scope) == deduped_catch(c, scope),
    decreases c,
{
    let inner = if c.var != u32::MAX {
        scope.push(c.var)
    } else {
        scope
    };
    law_declared_once(*c.body, inner);
}

/// A default value holds no variable.
proof fn lemma_default_init(vt: VarTableV, var: u32, v: u32)
    ensures
        !uses_local_oexpr(default_init(vt, var), v),
{
    if let Some(e) = default_init(vt, var) {
        assert(e is Const);
        assert(!uses_local(e, v));
    }
}

/// Once missing declarations are added, every variable that is used is declared or a
/// parameter.
pub proof fn law_everything_is_declared(body: StmtV, vt: VarTableV)
    ensures
        missing_vars(
            with_decls(
                body,
                in_order(missing_vars(body, vt)).map_values(|v: u32| missing_decl(body, vt, v)),
            ),
            vt,
        ) == Set::<u32>::empty(),
{
    let missing = missing_vars(body, vt);
    let order = in_order(missing);
    let decls = order.map_values(|v: u32| missing_decl(body, vt, v));
    let all = with_decls(body, decls);
    lemma_in_order(missing);
    assert forall|v: u32| !missing_vars(all, vt).contains(v) by {
        if stmt_uses(all, v) && !declares(all, v) && !is_param(vt, v) {
            if decls.len() > 0 {
                let list = match all {
                    StmtV::Block(l) => l,
                    _ => arbitrary(),
                };
                lemma_decls_hold(body, decls);
                assert(stmt_uses_seq(list, v));
                let i = choose|i: int| 0 <= i < list.len() && stmt_uses(#[trigger] list[i], v);
                assert(!declares_seq(list, v));
                assert(!declares(list[i], v));
                if missing.contains(v) {
                    assert(order.contains(v));
                    let k = choose|k: int| 0 <= k < order.len() && order[k] == v;
                    assert(decls[k] == missing_decl(body, vt, v));
                    assert(list.contains(decls[k]));
                    let j = choose|j: int| 0 <= j < list.len() && list[j] == decls[k];
                    assert(declares(list[j], v));
                } else if decls.contains(list[i]) {
                    let k = choose|k: int| 0 <= k < decls.len() && decls[k] == list[i];
                    assert(decls[k] == missing_decl(body, vt, order[k]));
                    lemma_default_init(vt, order[k], v);
                    assert(!uses_local_oexpr(None, v));
                    if let StmtV::LocalDef { var, init, .. } = list[i] {
                        assert(!uses_local_oexpr(init, v));
                        assert(var == v);
                    }
                    assert(order[k] == v);
                    assert(order.contains(v));
                } else {
                    match body {
                        StmtV::Block(own) => {
                            if own.contains(list[i]) {
                                let k = choose|k: int| 0 <= k < own.len() && own[k] == list[i];
                                assert(stmt_uses(own[k], v));
                                assert(stmt_uses_seq(own, v));
                            }
                            assert(stmt_uses(body, v));
                            assert(declares_seq(own, v));
                            let k = choose|k: int|
                                0 <= k < own.len() && declares(#[trigger] own[k], v);
                            assert(list.contains(own[k]));
                            let j = choose|j: int| 0 <= j < list.len() && list[j] == own[k];
                            assert(declares(list[j], v));
                        },
                        _ => {
                            assert(stmt_uses(body, v));
                            assert(declares(body, v));
                            assert(list.contains(body));
                            let j = choose|j: int| 0 <= j < list.len() && list[j] == body;
                            assert(declares(list[j], v));
                        },
                    }
                }
            } else {
                assert(missing.contains(v));
                assert(order.contains(v));
            }
        }
    }
    assert(missing_vars(all, vt) =~= Set::<u32>::empty());
}

/// A body with declarations holds the declarations and the body's own statements.
proof fn lemma_decls_hold(body: StmtV, decls: Seq<StmtV>)
    requires
        decls.len() > 0,
    ensures
        with_decls(body, decls) matches StmtV::Block(list) && {
            &&& forall|k: int| 0 <= k < decls.len() ==> list.contains(#[trigger] decls[k])
            &&& forall|i: int|
                0 <= i < list.len() ==> decls.contains(#[trigger] list[i]) || list[i] == body || (
                body matches StmtV::Block(own) && own.contains(list[i]))
            &&& body matches StmtV::Block(own) ==> forall|k: int|
                0 <= k < own.len() ==> list.contains(#[trigger] own[k])
            &&& !(body is Block) ==> list.contains(body)
        },
{
    let list = match with_decls(body, decls) {
        StmtV::Block(l) => l,
        _ => arbitrary(),
    };
    match body {
        StmtV::Block(own) => {
            if own.len() > 0 && crate::ctor_guards::is_ctor_call(own[0]) {
                assert forall|k: int| 0 <= k < decls.len() implies list.contains(
                    #[trigger] decls[k],
                ) by {
                    assert(list[k + 1] == decls[k]);
                }
                assert forall|i: int| 0 <= i < list.len() implies decls.contains(
                    #[trigger] list[i],
                ) || own.contains(list[i]) by {
                    if i == 0 {
                        assert(list[0] == own[0]);
                    } else if i <= decls.len() {
                        assert(list[i] == decls[i - 1]);
                    } else {
                        assert(list[i] == own[i - decls.len()]);
                    }
                }
                assert forall|k: int| 0 <= k < own.len() implies list.contains(
                    #[trigger] own[k],
                ) by {
                    if k == 0 {
                        assert(list[0] == own[0]);
                    } else {
                        assert(list[k + decls.len()] == own[k]);
                    }
                }
            } else {
                assert forall|k: int| 0 <= k < decls.len() implies list.contains(
                    #[trigger] decls[k],
                ) by {
                    assert(list[k] == decls[k]);
                }
                assert forall|i: int| 0 <= i < list.len() implies decls.contains(
                    #[trigger] list[i],
                ) || own.contains(list[i]) by {
                    if i < decls.len() {
                        assert(list[i] == decls[i]);
                    } else {
                        assert(list[i] == own[i - decls.len()]);
                    }
                }
                assert forall|k: int| 0 <= k < own.len() implies list.contains(
                    #[trigger] own[k],
                ) by {
                    assert(list[k + decls.len()] == own[k]);
                }
            }
        },
        _ => {
            assert(list[decls.len() as int] == body);
            assert forall|k: int|
                0 <= k < decls.len() implies list.contains(#[trigger] decls[k]) by {
                assert(list[k] == decls[k]);
            }
            assert forall|i: int| 0 <= i < list.len() implies decls.contains(#[trigger] list[i])
                || list[i] == body by {
                if i < decls.len() {
                    assert(list[i] == decls[i]);
                }
            }
        },
    }
}

} // verus!
