//! What a method becomes whatever was decompiled before it.
//!
//! Variables for stack slots are numbered across methods. Here is shown that the numbers
//! end up in the names of those variables and nowhere else.
use crate::catches::{
    all_catches_named, base_name, bound_body, catch_name, catch_vars_resolved,
    catch_vars_resolved_case, catch_vars_resolved_cases, catch_vars_resolved_catch,
    catch_vars_resolved_catches, catch_vars_resolved_opt, catch_vars_resolved_seq, catches_named,
    catches_named_case, catches_named_cases, catches_named_catch, catches_named_catches,
    catches_named_opt, catches_named_seq, caught_name, caught_type, e_name, fresh_name, head_store,
    is_free, is_least_free, is_shared, lemma_bound_size, lemma_free_exists, var_names,
    with_catch_name, with_caught, with_names, CatchNamesV,
};
use crate::classes::{ClassPoolV, PoolClassV};
use crate::cleanup::cleaned;
use crate::dead_stores::read_set;
use crate::declarations::deduped;
use crate::escapes::{
    default_init, defs_demoted, escaped_hoisted, escaped_vars, loop_declared, missing_decl,
    missing_vars, top_decls,
};
use crate::expr::{as_local, type_of, ExprV};
use crate::flow::{carried, RouteV};
use crate::generic_casts::{generic_cast, CastFactsV};
use crate::generics::SuperLinkV;
use crate::infer::{
    assign_copied, body_evidence, bool_copied, bool_rounds, bools_copied, bools_copied_case,
    bools_copied_cases, bools_copied_catch, bools_copied_catches, bools_copied_opt,
    bools_copied_seq, inference, types_inferred,
};
use crate::method::{
    casts_added, caught, closed_up, count_some, finished_body, guarded, jumps_settled, made_whole,
    refined, returns_typed, settled, DraftV,
};
use crate::monitors::{rebuilt, sync_stripped};
use crate::nameless::{
    is_stack_name, lemma_defs_demoted, lemma_generic_cast, lemma_narrowing_cast,
    lemma_numbered_name, lemma_pruned, lemma_same_reads, lemma_same_table, lemma_stores_dropped,
    same_name, same_table, same_var,
};
use crate::naming::{
    declared, declared_name, disambiguated, disambiguated_case, disambiguated_cases,
    disambiguated_catch, disambiguated_catches, disambiguated_opt, disambiguated_seq,
    is_least_untaken, is_taken, lemma_untaken_exists, names_disambiguated, owner, NamingV,
};
use crate::numbering::{alike, law_numbers_only_name, same_flow};
use crate::order::in_order;
use crate::rethrows::rethrows_dropped;
use crate::retype::var_types;
use crate::sizes::{
    case_size, cases_size, catch_size, catches_size, opt_stmt_size, stmt_size, stmts_size,
};
use crate::split::{
    assign_split, assign_walked, name_of, next_seq, object_narrowed, split_done, split_start,
    split_walked, split_walked_case, split_walked_cases, split_walked_catch, split_walked_catches,
    split_walked_opt, split_walked_seq, splittable, stands_for, SplitV,
};
use crate::stack_vars::with_decls;
use crate::stmt::{CaseGroupV, CatchV, StmtV};
use crate::text::{decimal, numbered};
use crate::types::{erase, JTypeV, TypeRefV};
use crate::var::{has_var, is_synthetic, made_up, next_id, var_slot, with_type, with_var, VarTableV};
use vstd::prelude::*;

verus! {

// ---------------------------------------------------------------------
// Catch variables.

/// One more variable keeps tables the same.
proof fn lemma_with_var(
    a: VarTableV,
    b: VarTableV,
    slot: u16,
    name: Seq<char>,
    name_b: Seq<char>,
    ty: TypeRefV,
)
    requires
        same_table(a, b),
        same_name(name, name_b),
    ensures
        same_table(with_var(a, slot, name, ty), with_var(b, slot, name_b, ty)),
{
    let x = with_var(a, slot, name, ty);
    let y = with_var(b, slot, name_b, ty);
    assert forall|i: int|
        #![trigger x.vars[i]]
        #![trigger y.vars[i]]
        0 <= i < x.vars.len() implies same_var(x.vars[i], y.vars[i]) by {
        if i < a.vars.len() {
            assert(same_var(a.vars[i], b.vars[i]));
        }
    }
}

/// Another type of a variable keeps tables the same.
proof fn lemma_with_type(a: VarTableV, b: VarTableV, id: u32, ty: TypeRefV)
    requires
        same_table(a, b),
        has_var(a, id),
    ensures
        same_table(with_type(a, id, ty), with_type(b, id, ty)),
{
    let x = with_type(a, id, ty);
    let y = with_type(b, id, ty);
    assert forall|i: int|
        #![trigger x.vars[i]]
        #![trigger y.vars[i]]
        0 <= i < x.vars.len() implies same_var(x.vars[i], y.vars[i]) by {
        assert(same_var(a.vars[i], b.vars[i]));
    }
}

/// The catch variable of a clause keeps tables the same.
proof fn lemma_with_caught(c: CatchV, v: u32, a: VarTableV, b: VarTableV)
    requires
        same_table(a, b),
    ensures
        same_table(with_caught(a, c, v), with_caught(b, c, v)),
        next_id(a) == next_id(b),
{
    lemma_same_reads(a, b);
    if !is_synthetic(a, v) {
        assert(same_var(a.vars[v as int], b.vars[v as int]));
    }
    lemma_with_var(
        a,
        b,
        var_slot(a, v),
        caught_name(a, v),
        caught_name(b, v),
        caught_type(c),
    );
}

/// No catch clause of `s` binds a variable that `names` names like a stack slot.
pub open spec fn catches_bind(s: StmtV, names: Seq<Seq<char>>) -> bool
    decreases s,
{
    match s {
        StmtV::Block(items) => catches_bind_seq(items, names),
        StmtV::If { then_stmt, else_stmt, .. } => catches_bind(*then_stmt, names)
            && catches_bind_opt(
            else_stmt,
            names,
        ),
        StmtV::While { body, .. } => catches_bind(*body, names),
        StmtV::DoWhile { body, .. } => catches_bind(*body, names),
        StmtV::For { init, body, .. } => catches_bind_seq(init, names)
            && catches_bind(*body, names),
        StmtV::ForEach { body, .. } => catches_bind(*body, names),
        StmtV::Switch { cases, default, .. } => catches_bind_cases(cases, names)
            && catches_bind_opt(
            default,
            names,
        ),
        StmtV::Try { body, catches, finally } => catches_bind(*body, names) && catches_bind_catches(
            catches,
            names,
        ) && catches_bind_opt(finally, names),
        StmtV::TryWithResources { resources, body, catches, finally } => catches_bind_seq(
            resources,
            names,
        ) && catches_bind(*body, names) && catches_bind_catches(catches, names) && catches_bind_opt(
            finally,
            names,
        ),
        StmtV::Synchronized { body, .. } => catches_bind(*body, names),
        StmtV::Labeled { body, .. } => catches_bind(*body, names),
        _ => true,
    }
}

/// [`catches_bind`] where there is a value.
pub open spec fn catches_bind_opt(o: Option<Box<StmtV>>, names: Seq<Seq<char>>) -> bool
    decreases o,
{
    match o {
        Some(x) => catches_bind(*x, names),
        None => true,
    }
}

/// [`catches_bind`] over a list.
pub open spec fn catches_bind_seq(l: Seq<StmtV>, names: Seq<Seq<char>>) -> bool
    decreases l,
{
    forall|i: int| 0 <= i < l.len() ==> catches_bind(#[trigger] l[i], names)
}

/// [`catches_bind`] inside a switch arm.
pub open spec fn catches_bind_case(c: CaseGroupV, names: Seq<Seq<char>>) -> bool
    decreases c,
{
    catches_bind_seq(c.body, names)
}

/// [`catches_bind`] over switch arms.
pub open spec fn catches_bind_cases(l: Seq<CaseGroupV>, names: Seq<Seq<char>>) -> bool
    decreases l,
{
    forall|i: int| 0 <= i < l.len() ==> catches_bind_case(#[trigger] l[i], names)
}

/// [`catches_bind`] inside a catch clause.
pub open spec fn catches_bind_catch(c: CatchV, names: Seq<Seq<char>>) -> bool
    decreases c,
{
    !(c.var < names.len() && is_stack_name(names[c.var as int])) && catches_bind(*c.body, names)
}

/// [`catches_bind`] over catch clauses.
pub open spec fn catches_bind_catches(l: Seq<CatchV>, names: Seq<Seq<char>>) -> bool
    decreases l,
{
    forall|i: int| 0 <= i < l.len() ==> catches_bind_catch(#[trigger] l[i], names)
}

/// Lists of the same names.
pub open spec fn same_list(a: Seq<Seq<char>>, b: Seq<Seq<char>>) -> bool {
    a.len() == b.len() && forall|i: int|
        #![trigger a[i]]
        #![trigger b[i]]
        0 <= i < a.len() ==> same_name(a[i], b[i])
}

/// No name for a stack slot is in the list.
pub open spec fn no_stack_names(l: Seq<Seq<char>>) -> bool {
    forall|i: int| 0 <= i < l.len() ==> !is_stack_name(#[trigger] l[i])
}

/// The same names of catch clauses. Only what was named like a stack slot among `all` is.
pub open spec fn same_naming(all: Seq<Seq<char>>, a: CatchNamesV, b: CatchNamesV) -> bool {
    &&& same_list(a.names, b.names)
    &&& same_list(a.used, b.used)
    &&& a.names.len() == all.len()
    &&& forall|i: int|
        0 <= i < all.len() && is_stack_name(#[trigger] a.names[i]) ==> is_stack_name(all[i])
}

/// A name that is none for a stack slot is in both lists or in neither.
proof fn lemma_same_contains(a: Seq<Seq<char>>, b: Seq<Seq<char>>, x: Seq<char>)
    requires
        same_list(a, b),
        !is_stack_name(x),
    ensures
        a.contains(x) == b.contains(x),
        is_shared(a, x) == is_shared(b, x),
{
    assert forall|i: int| 0 <= i < a.len() implies (#[trigger] a[i] == x) == (b[i] == x) by {
        assert(same_name(a[i], b[i]));
    }
    if a.contains(x) {
        let i = choose|i: int| 0 <= i < a.len() && a[i] == x;
        assert(b[i] == x);
    }
    if b.contains(x) {
        let i = choose|i: int| 0 <= i < b.len() && b[i] == x;
        assert(a[i] == x);
    }
    if is_shared(a, x) {
        let (i, j) = choose|i: int, j: int|
            0 <= i < j < a.len() && #[trigger] a[i] == x && #[trigger] a[j] == x;
        assert(b[i] == x && b[j] == x);
    }
    if is_shared(b, x) {
        let (i, j) = choose|i: int, j: int|
            0 <= i < j < b.len() && #[trigger] b[i] == x && #[trigger] b[j] == x;
        assert(a[i] == x && a[j] == x);
    }
}

/// A fresh name is the same, and none for a stack slot.
proof fn lemma_fresh_name(a: Seq<Seq<char>>, b: Seq<Seq<char>>, open: Seq<Seq<char>>)
    requires
        same_list(a, b),
    ensures
        fresh_name(a, open) == fresh_name(b, open),
        !is_stack_name(fresh_name(a, open)),
{
    reveal_strlit("stack");
    assert forall|k: nat| !is_stack_name(#[trigger] e_name(k)) by {
        lemma_numbered_name(seq!['e'], k);
    }
    assert forall|k: nat| is_free(#[trigger] e_name(k), a, open) == is_free(e_name(k), b, open) by {
        lemma_same_contains(a, b, e_name(k));
    }
    lemma_free_exists(a, open, 1);
    lemma_free_exists(b, open, 1);
    let m = choose|k: nat| is_least_free(k, a, open);
    let n = choose|k: nat| is_least_free(k, b, open);
    if m < n {
        assert(!is_free(e_name(m), b, open));
    } else if n < m {
        assert(!is_free(e_name(n), a, open));
    }
}

/// A clause gets the same name.
proof fn lemma_catch_name(
    c: CatchV,
    all: Seq<Seq<char>>,
    all_b: Seq<Seq<char>>,
    open: Seq<Seq<char>>,
    st: CatchNamesV,
    st_b: CatchNamesV,
)
    requires
        same_list(all, all_b),
        same_naming(all, st, st_b),
        !(c.var < all.len() && is_stack_name(all[c.var as int])),
    ensures
        catch_name(c, all, open, st) == catch_name(c, all_b, open, st_b),
        !is_stack_name(catch_name(c, all, open, st)),
        same_naming(
            all,
            with_catch_name(c, catch_name(c, all, open, st), st),
            with_catch_name(c, catch_name(c, all, open, st), st_b),
        ),
{
    reveal_strlit("ignored");
    reveal_strlit("stack");
    assert("ignored"@.take(5)[0] == 'i');
    let base = base_name(c, st);
    if c.var < st.names.len() {
        assert(same_name(st.names[c.var as int], st_b.names[c.var as int]));
    }
    assert(base == base_name(c, st_b));
    assert(!is_stack_name(base));
    lemma_same_contains(all, all_b, base);
    lemma_fresh_name(st.used, st_b.used, open);
    let name = catch_name(c, all, open, st);
    let x = with_catch_name(c, name, st);
    let y = with_catch_name(c, name, st_b);
    assert forall|i: int|
        #![trigger x.names[i]]
        #![trigger y.names[i]]
        0 <= i < x.names.len() implies same_name(x.names[i], y.names[i]) by {
        assert(same_name(st.names[i], st_b.names[i]));
    }
    assert forall|i: int|
        #![trigger x.used[i]]
        #![trigger y.used[i]]
        0 <= i < x.used.len() implies same_name(x.used[i], y.used[i]) by {
        if i < st.used.len() {
            assert(same_name(st.used[i], st_b.used[i]));
        }
    }
}

// ---------------------------------------------------------------------
// Types.

/// The same state of splitting.
pub open spec fn same_split(a: SplitV, b: SplitV) -> bool {
    a == (SplitV { vt: a.vt, ..b }) && same_table(a.vt, b.vt)
}

/// An assignment is taken by the same variable.
proof fn lemma_assign_split(var: u32, value: ExprV, synth: Seq<bool>, a: SplitV, b: SplitV)
    requires
        same_split(a, b),
    ensures
        assign_split(var, value, synth, a).0 == assign_split(var, value, synth, b).0,
        same_split(
            assign_split(var, value, synth, a).1,
            assign_split(var, value, synth, b).1,
        ),
{
    lemma_same_reads(a.vt, b.vt);
    let cur = stands_for(a.active, var);
    let nt = erase(type_of(value));
    if has_var(a.vt, cur) {
        assert(same_var(a.vt.vars[cur as int], b.vt.vars[cur as int]));
        lemma_with_type(a.vt, b.vt, cur, TypeRefV::J(nt));
    }
    assert(same_table(object_narrowed(a.vt, cur, nt), object_narrowed(b.vt, cur, nt)));
    let n = next_seq(a.seq) as nat;
    lemma_numbered_name(name_of(a.vt, cur), n);
    lemma_numbered_name(name_of(b.vt, cur), n);
    assert(same_name(name_of(a.vt, cur), name_of(b.vt, cur)));
    let x = VarTableV {
        vars: a.vt.vars.push(
            made_up(
                a.vt,
                var_slot(a.vt, cur),
                name_of(a.vt, cur) + decimal(n),
                TypeRefV::J(nt),
            ),
        ),
        ..a.vt
    };
    let y = VarTableV {
        vars: b.vt.vars.push(
            made_up(
                b.vt,
                var_slot(b.vt, cur),
                name_of(b.vt, cur) + decimal(n),
                TypeRefV::J(nt),
            ),
        ),
        ..b.vt
    };
    assert forall|i: int|
        #![trigger x.vars[i]]
        #![trigger y.vars[i]]
        0 <= i < x.vars.len() implies same_var(x.vars[i], y.vars[i]) by {
        if i < a.vt.vars.len() {
            assert(same_var(a.vt.vars[i], b.vt.vars[i]));
        }
    }
    assert(same_table(x, y));
}

/// An assignment statement becomes the same.
proof fn lemma_assign_walked(e: ExprV, synth: Seq<bool>, a: SplitV, b: SplitV)
    requires
        same_split(a, b),
    ensures
        assign_walked(e, synth, a).0 == assign_walked(e, synth, b).0,
        same_split(assign_walked(e, synth, a).1, assign_walked(e, synth, b).1),
{
    if let ExprV::Assign { target, value, .. } = e {
        if let Some(v) = as_local(*target) {
            lemma_assign_split(v, *value, synth, a, b);
            lemma_same_reads(
                assign_split(v, *value, synth, a).1.vt,
                assign_split(v, *value, synth, b).1.vt,
            );
        }
    }
}

/// A copy gives the same types.
proof fn lemma_bool_copied(to: Option<u32>, value: ExprV, a: VarTableV, b: VarTableV)
    requires
        same_table(a, b),
    ensures
        same_table(bool_copied(to, value, a), bool_copied(to, value, b)),
{
    if let (Some(t), Some(v)) = (to, as_local(value)) {
        if has_var(a, t) && has_var(a, v) {
            assert(same_var(a.vars[t as int], b.vars[t as int]));
            assert(same_var(a.vars[v as int], b.vars[v as int]));
            lemma_with_type(a, b, v, TypeRefV::J(JTypeV::Boolean));
        }
    }
}

/// An assignment gives the same types.
proof fn lemma_assign_copied(e: ExprV, a: VarTableV, b: VarTableV)
    requires
        same_table(a, b),
    ensures
        same_table(assign_copied(e, a), assign_copied(e, b)),
{
    if let ExprV::Assign { target, value, .. } = e {
        lemma_bool_copied(as_local(*target), *value, a, b);
    }
}

// ---------------------------------------------------------------------
// Names in scope.

/// The same names, visible and used.
pub open spec fn same_scopes(a: NamingV, b: NamingV) -> bool {
    &&& same_list(a.names, b.names)
    &&& same_entries(a.visible, b.visible)
    &&& same_entries(a.used, b.used)
}

/// The same names with the same variables.
pub open spec fn same_entries(a: Seq<(Seq<char>, u32)>, b: Seq<(Seq<char>, u32)>) -> bool {
    a.len() == b.len() && forall|i: int|
        #![trigger a[i]]
        #![trigger b[i]]
        0 <= i < a.len() ==> same_name(a[i].0, b[i].0) && a[i].1 == b[i].1
}

/// A name that is none for a stack slot has the same owner.
proof fn lemma_owner(a: Seq<(Seq<char>, u32)>, b: Seq<(Seq<char>, u32)>, x: Seq<char>)
    requires
        same_entries(a, b),
        !is_stack_name(x),
    ensures
        owner(a, x) == owner(b, x),
    decreases a.len(),
{
    if a.len() > 0 {
        assert(same_name(a[a.len() - 1].0, b[b.len() - 1].0));
        assert(same_entries(a.drop_last(), b.drop_last())) by {
            assert forall|i: int| 0 <= i < a.len() - 1 implies same_name(
                #[trigger] a.drop_last()[i].0,
                b.drop_last()[i].0,
            ) && a.drop_last()[i].1 == b.drop_last()[i].1 by {
                assert(a.drop_last()[i] == a[i] && b.drop_last()[i] == b[i]);
            }
            assert forall|i: int| 0 <= i < b.len() - 1 implies same_name(
                a.drop_last()[i].0,
                #[trigger] b.drop_last()[i].0,
            ) && a.drop_last()[i].1 == b.drop_last()[i].1 by {
                assert(a.drop_last()[i] == a[i] && b.drop_last()[i] == b[i]);
            }
        }
        lemma_owner(a.drop_last(), b.drop_last(), x);
    }
}

/// A declaration gets the same name.
proof fn lemma_declared_name(var: u32, a: NamingV, b: NamingV)
    requires
        same_scopes(a, b),
        var < a.names.len(),
    ensures
        same_name(declared_name(var, a), declared_name(var, b)),
{
    let x = a.names[var as int];
    let y = b.names[var as int];
    assert(same_name(x, y));
    let j = choose|k: nat| is_least_untaken(k, x, var, a);
    let k = choose|k: nat| is_least_untaken(k, y, var, b);
    lemma_numbered_name(x, j);
    lemma_numbered_name(y, k);
    if !is_stack_name(x) {
        lemma_owner(a.visible, b.visible, x);
    }
    if !is_stack_name(x) && x != "stack"@ {
        assert forall|n: nat| #[trigger] is_taken(numbered(x, n), var, a) == is_taken(
            numbered(x, n),
            var,
            b,
        ) by {
            lemma_numbered_name(x, n);
            lemma_owner(a.visible, b.visible, numbered(x, n));
            lemma_owner(a.used, b.used, numbered(x, n));
        }
        lemma_untaken_exists(x, var, a, 1);
        lemma_untaken_exists(x, var, b, 1);
        assert(is_taken(numbered(x, j), var, a) == is_taken(numbered(x, j), var, b));
        assert(is_taken(numbered(x, k), var, a) == is_taken(numbered(x, k), var, b));
        if j < k {
            assert(is_taken(numbered(x, j), var, b));
        } else if k < j {
            assert(is_taken(numbered(x, k), var, a));
        }
    }
}

/// A declaration leaves the same names.
proof fn lemma_declared(var: u32, a: NamingV, b: NamingV)
    requires
        same_scopes(a, b),
    ensures
        same_scopes(declared(var, a), declared(var, b)),
{
    if var < a.names.len() {
        lemma_declared_name(var, a, b);
        let x = declared(var, a);
        let y = declared(var, b);
        assert forall|i: int|
            #![trigger x.names[i]]
            #![trigger y.names[i]]
            0 <= i < x.names.len() implies same_name(x.names[i], y.names[i]) by {
            assert(same_name(a.names[i], b.names[i]));
        }
        assert forall|i: int|
            #![trigger x.visible[i]]
            #![trigger y.visible[i]]
            0 <= i < x.visible.len() implies same_name(x.visible[i].0, y.visible[i].0)
            && x.visible[i].1 == y.visible[i].1 by {
            if i < a.visible.len() {
                assert(same_name(a.visible[i].0, b.visible[i].0));
            }
        }
        assert forall|i: int|
            #![trigger x.used[i]]
            #![trigger y.used[i]]
            0 <= i < x.used.len() implies same_name(x.used[i].0, y.used[i].0) && x.used[i].1
            == y.used[i].1 by {
            if i < a.used.len() {
                assert(same_name(a.used[i].0, b.used[i].0));
            }
        }
    }
}

// ---------------------------------------------------------------------
// Passes over statements.

/// Finding catch variables does the same whatever stack slots are called.
#[verifier::spinoff_prover]
proof fn lemma_catch_vars_resolved(s: StmtV, a: VarTableV, b: VarTableV)
    requires
        same_table(a, b),
    ensures
        catch_vars_resolved(s, a).0 == catch_vars_resolved(s, b).0,
        same_table(catch_vars_resolved(s, a).1, catch_vars_resolved(s, b).1),
    decreases stmt_size(s),
{
    match s {
        StmtV::Block(items) => {
            lemma_catch_vars_resolved_seq(items, a, b);
        },
        StmtV::If { then_stmt, else_stmt, .. } => {
            lemma_catch_vars_resolved(*then_stmt, a, b);
            let vt1 = catch_vars_resolved(*then_stmt, a).1;
            let vt1_b = catch_vars_resolved(*then_stmt, b).1;
            lemma_catch_vars_resolved_opt(else_stmt, vt1, vt1_b);
        },
        StmtV::While { body, .. } => {
            lemma_catch_vars_resolved(*body, a, b);
        },
        StmtV::DoWhile { body, .. } => {
            lemma_catch_vars_resolved(*body, a, b);
        },
        StmtV::For { init, body, .. } => {
            lemma_catch_vars_resolved_seq(init, a, b);
            let vt1 = catch_vars_resolved_seq(init, a).1;
            let vt1_b = catch_vars_resolved_seq(init, b).1;
            lemma_catch_vars_resolved(*body, vt1, vt1_b);
        },
        StmtV::ForEach { body, .. } => {
            lemma_catch_vars_resolved(*body, a, b);
        },
        StmtV::Switch { cases, default, .. } => {
            lemma_catch_vars_resolved_cases(cases, a, b);
            let vt1 = catch_vars_resolved_cases(cases, a).1;
            let vt1_b = catch_vars_resolved_cases(cases, b).1;
            lemma_catch_vars_resolved_opt(default, vt1, vt1_b);
        },
        StmtV::Try { body, catches, finally } => {
            lemma_catch_vars_resolved(*body, a, b);
            let vt1 = catch_vars_resolved(*body, a).1;
            let vt1_b = catch_vars_resolved(*body, b).1;
            lemma_catch_vars_resolved_catches(catches, vt1, vt1_b);
            let vt2 = catch_vars_resolved_catches(catches, vt1).1;
            let vt2_b = catch_vars_resolved_catches(catches, vt1_b).1;
            lemma_catch_vars_resolved_opt(finally, vt2, vt2_b);
        },
        StmtV::TryWithResources { resources, body, catches, finally } => {
            lemma_catch_vars_resolved_seq(resources, a, b);
            let vt1 = catch_vars_resolved_seq(resources, a).1;
            let vt1_b = catch_vars_resolved_seq(resources, b).1;
            lemma_catch_vars_resolved(*body, vt1, vt1_b);
            let vt2 = catch_vars_resolved(*body, vt1).1;
            let vt2_b = catch_vars_resolved(*body, vt1_b).1;
            lemma_catch_vars_resolved_catches(catches, vt2, vt2_b);
            let vt3 = catch_vars_resolved_catches(catches, vt2).1;
            let vt3_b = catch_vars_resolved_catches(catches, vt2_b).1;
            lemma_catch_vars_resolved_opt(finally, vt3, vt3_b);
        },
        StmtV::Synchronized { body, .. } => {
            lemma_catch_vars_resolved(*body, a, b);
        },
        StmtV::Labeled { body, .. } => {
            lemma_catch_vars_resolved(*body, a, b);
        },
        _ => {},
    }
}

/// [`lemma_catch_vars_resolved`] where there is a value.
proof fn lemma_catch_vars_resolved_opt(o: Option<Box<StmtV>>, a: VarTableV, b: VarTableV)
    requires
        same_table(a, b),
    ensures
        catch_vars_resolved_opt(o, a).0 == catch_vars_resolved_opt(o, b).0,
        same_table(catch_vars_resolved_opt(o, a).1, catch_vars_resolved_opt(o, b).1),
    decreases opt_stmt_size(o),
{
    match o {
        Some(x) => {
            lemma_catch_vars_resolved(*x, a, b);
        },
        None => {},
    }
}

/// [`lemma_catch_vars_resolved`] over a list.
proof fn lemma_catch_vars_resolved_seq(v: Seq<StmtV>, a: VarTableV, b: VarTableV)
    requires
        same_table(a, b),
    ensures
        catch_vars_resolved_seq(v, a).0 == catch_vars_resolved_seq(v, b).0,
        same_table(catch_vars_resolved_seq(v, a).1, catch_vars_resolved_seq(v, b).1),
    decreases stmts_size(v),
{
    if !(v.len() == 0) {
        lemma_catch_vars_resolved_seq(v.drop_last(), a, b);
        let vt1 = catch_vars_resolved_seq(v.drop_last(), a).1;
        let vt1_b = catch_vars_resolved_seq(v.drop_last(), b).1;
        lemma_catch_vars_resolved(v.last(), vt1, vt1_b);
    }
}

/// [`lemma_catch_vars_resolved`] inside a switch arm.
proof fn lemma_catch_vars_resolved_case(c: CaseGroupV, a: VarTableV, b: VarTableV)
    requires
        same_table(a, b),
    ensures
        catch_vars_resolved_case(c, a).0 == catch_vars_resolved_case(c, b).0,
        same_table(catch_vars_resolved_case(c, a).1, catch_vars_resolved_case(c, b).1),
    decreases case_size(c),
{
    lemma_catch_vars_resolved_seq(c.body, a, b);
}

/// [`lemma_catch_vars_resolved`] over switch arms.
proof fn lemma_catch_vars_resolved_cases(v: Seq<CaseGroupV>, a: VarTableV, b: VarTableV)
    requires
        same_table(a, b),
    ensures
        catch_vars_resolved_cases(v, a).0 == catch_vars_resolved_cases(v, b).0,
        same_table(catch_vars_resolved_cases(v, a).1, catch_vars_resolved_cases(v, b).1),
    decreases cases_size(v),
{
    if !(v.len() == 0) {
        lemma_catch_vars_resolved_cases(v.drop_last(), a, b);
        let vt1 = catch_vars_resolved_cases(v.drop_last(), a).1;
        let vt1_b = catch_vars_resolved_cases(v.drop_last(), b).1;
        lemma_catch_vars_resolved_case(v.last(), vt1, vt1_b);
    }
}

/// [`lemma_catch_vars_resolved`] inside a catch clause.
proof fn lemma_catch_vars_resolved_catch(c: CatchV, a: VarTableV, b: VarTableV)
    requires
        same_table(a, b),
    ensures
        catch_vars_resolved_catch(c, a).0 == catch_vars_resolved_catch(c, b).0,
        same_table(catch_vars_resolved_catch(c, a).1, catch_vars_resolved_catch(c, b).1),
    decreases catch_size(c),
{
    if c.var == u32::MAX {
        if let Some(v) = head_store(*c.body) {
            lemma_with_caught(c, v, a, b);
            lemma_bound_size(*c.body, v, next_id(a));
            lemma_catch_vars_resolved(
                bound_body(*c.body, v, next_id(a)),
                with_caught(a, c, v),
                with_caught(b, c, v),
            );
        } else {
            lemma_catch_vars_resolved(*c.body, a, b);
        }
    } else {
        lemma_catch_vars_resolved(*c.body, a, b);
    }
}

/// [`lemma_catch_vars_resolved`] over catch clauses.
proof fn lemma_catch_vars_resolved_catches(v: Seq<CatchV>, a: VarTableV, b: VarTableV)
    requires
        same_table(a, b),
    ensures
        catch_vars_resolved_catches(v, a).0 == catch_vars_resolved_catches(v, b).0,
        same_table(catch_vars_resolved_catches(v, a).1, catch_vars_resolved_catches(v, b).1),
    decreases catches_size(v),
{
    if !(v.len() == 0) {
        lemma_catch_vars_resolved_catches(v.drop_last(), a, b);
        let vt1 = catch_vars_resolved_catches(v.drop_last(), a).1;
        let vt1_b = catch_vars_resolved_catches(v.drop_last(), b).1;
        lemma_catch_vars_resolved_catch(v.last(), vt1, vt1_b);
    }
}

/// Naming catch clauses does the same whatever stack slots are called, if no clause binds
/// one.
#[verifier::spinoff_prover]
proof fn lemma_catches_named(
    s: StmtV,
    all: Seq<Seq<char>>,
    all_b: Seq<Seq<char>>,
    open: Seq<Seq<char>>,
    st: CatchNamesV,
    st_b: CatchNamesV,
)
    requires
        same_list(all, all_b),
        same_naming(all, st, st_b),
        no_stack_names(open),
        catches_bind(s, all),
    ensures
        catches_named(s, all, open, st).0 == catches_named(s, all_b, open, st_b).0,
        same_naming(all, catches_named(s, all, open, st).1, catches_named(s, all_b, open, st_b).1),
    decreases s,
{
    match s {
        StmtV::Block(items) => {
            lemma_catches_named_seq(items, all, all_b, open, st, st_b);
        },
        StmtV::If { then_stmt, else_stmt, .. } => {
            lemma_catches_named(*then_stmt, all, all_b, open, st, st_b);
            let st1 = catches_named(*then_stmt, all, open, st).1;
            let st1_b = catches_named(*then_stmt, all_b, open, st_b).1;
            lemma_catches_named_opt(else_stmt, all, all_b, open, st1, st1_b);
        },
        StmtV::While { body, .. } => {
            lemma_catches_named(*body, all, all_b, open, st, st_b);
        },
        StmtV::DoWhile { body, .. } => {
            lemma_catches_named(*body, all, all_b, open, st, st_b);
        },
        StmtV::For { init, body, .. } => {
            lemma_catches_named_seq(init, all, all_b, open, st, st_b);
            let st1 = catches_named_seq(init, all, open, st).1;
            let st1_b = catches_named_seq(init, all_b, open, st_b).1;
            lemma_catches_named(*body, all, all_b, open, st1, st1_b);
        },
        StmtV::ForEach { body, .. } => {
            lemma_catches_named(*body, all, all_b, open, st, st_b);
        },
        StmtV::Switch { cases, default, .. } => {
            lemma_catches_named_cases(cases, all, all_b, open, st, st_b);
            let st1 = catches_named_cases(cases, all, open, st).1;
            let st1_b = catches_named_cases(cases, all_b, open, st_b).1;
            lemma_catches_named_opt(default, all, all_b, open, st1, st1_b);
        },
        StmtV::Try { body, catches, finally } => {
            lemma_catches_named(*body, all, all_b, open, st, st_b);
            let st1 = catches_named(*body, all, open, st).1;
            let st1_b = catches_named(*body, all_b, open, st_b).1;
            lemma_catches_named_catches(catches, all, all_b, open, st1, st1_b);
            let st2 = catches_named_catches(catches, all, open, st1).1;
            let st2_b = catches_named_catches(catches, all_b, open, st1_b).1;
            lemma_catches_named_opt(finally, all, all_b, open, st2, st2_b);
        },
        StmtV::TryWithResources { resources, body, catches, finally } => {
            lemma_catches_named_seq(resources, all, all_b, open, st, st_b);
            let st1 = catches_named_seq(resources, all, open, st).1;
            let st1_b = catches_named_seq(resources, all_b, open, st_b).1;
            lemma_catches_named(*body, all, all_b, open, st1, st1_b);
            let st2 = catches_named(*body, all, open, st1).1;
            let st2_b = catches_named(*body, all_b, open, st1_b).1;
            lemma_catches_named_catches(catches, all, all_b, open, st2, st2_b);
            let st3 = catches_named_catches(catches, all, open, st2).1;
            let st3_b = catches_named_catches(catches, all_b, open, st2_b).1;
            lemma_catches_named_opt(finally, all, all_b, open, st3, st3_b);
        },
        StmtV::Synchronized { body, .. } => {
            lemma_catches_named(*body, all, all_b, open, st, st_b);
        },
        StmtV::Labeled { body, .. } => {
            lemma_catches_named(*body, all, all_b, open, st, st_b);
        },
        _ => {},
    }
}

/// [`lemma_catches_named`] where there is a value.
proof fn lemma_catches_named_opt(
    o: Option<Box<StmtV>>,
    all: Seq<Seq<char>>,
    all_b: Seq<Seq<char>>,
    open: Seq<Seq<char>>,
    st: CatchNamesV,
    st_b: CatchNamesV,
)
    requires
        same_list(all, all_b),
        same_naming(all, st, st_b),
        no_stack_names(open),
        catches_bind_opt(o, all),
    ensures
        catches_named_opt(o, all, open, st).0 == catches_named_opt(o, all_b, open, st_b).0,
        same_naming(
            all,
            catches_named_opt(o, all, open, st).1,
            catches_named_opt(o, all_b, open, st_b).1,
        ),
    decreases o,
{
    match o {
        Some(x) => {
            lemma_catches_named(*x, all, all_b, open, st, st_b);
        },
        None => {},
    }
}

/// [`lemma_catches_named`] over a list.
proof fn lemma_catches_named_seq(
    v: Seq<StmtV>,
    all: Seq<Seq<char>>,
    all_b: Seq<Seq<char>>,
    open: Seq<Seq<char>>,
    st: CatchNamesV,
    st_b: CatchNamesV,
)
    requires
        same_list(all, all_b),
        same_naming(all, st, st_b),
        no_stack_names(open),
        catches_bind_seq(v, all),
    ensures
        catches_named_seq(v, all, open, st).0 == catches_named_seq(v, all_b, open, st_b).0,
        same_naming(
            all,
            catches_named_seq(v, all, open, st).1,
            catches_named_seq(v, all_b, open, st_b).1,
        ),
    decreases v,
{
    if !(v.len() == 0) {
        lemma_catches_named_seq(v.drop_last(), all, all_b, open, st, st_b);
        let st1 = catches_named_seq(v.drop_last(), all, open, st).1;
        let st1_b = catches_named_seq(v.drop_last(), all_b, open, st_b).1;
        lemma_catches_named(v.last(), all, all_b, open, st1, st1_b);
    }
}

/// [`lemma_catches_named`] inside a switch arm.
proof fn lemma_catches_named_case(
    c: CaseGroupV,
    all: Seq<Seq<char>>,
    all_b: Seq<Seq<char>>,
    open: Seq<Seq<char>>,
    st: CatchNamesV,
    st_b: CatchNamesV,
)
    requires
        same_list(all, all_b),
        same_naming(all, st, st_b),
        no_stack_names(open),
        catches_bind_case(c, all),
    ensures
        catches_named_case(c, all, open, st).0 == catches_named_case(c, all_b, open, st_b).0,
        same_naming(
            all,
            catches_named_case(c, all, open, st).1,
            catches_named_case(c, all_b, open, st_b).1,
        ),
    decreases c,
{
    lemma_catches_named_seq(c.body, all, all_b, open, st, st_b);
}

/// [`lemma_catches_named`] over switch arms.
proof fn lemma_catches_named_cases(
    v: Seq<CaseGroupV>,
    all: Seq<Seq<char>>,
    all_b: Seq<Seq<char>>,
    open: Seq<Seq<char>>,
    st: CatchNamesV,
    st_b: CatchNamesV,
)
    requires
        same_list(all, all_b),
        same_naming(all, st, st_b),
        no_stack_names(open),
        catches_bind_cases(v, all),
    ensures
        catches_named_cases(v, all, open, st).0 == catches_named_cases(v, all_b, open, st_b).0,
        same_naming(
            all,
            catches_named_cases(v, all, open, st).1,
            catches_named_cases(v, all_b, open, st_b).1,
        ),
    decreases v,
{
    if !(v.len() == 0) {
        lemma_catches_named_cases(v.drop_last(), all, all_b, open, st, st_b);
        let st1 = catches_named_cases(v.drop_last(), all, open, st).1;
        let st1_b = catches_named_cases(v.drop_last(), all_b, open, st_b).1;
        lemma_catches_named_case(v.last(), all, all_b, open, st1, st1_b);
    }
}

/// [`lemma_catches_named`] inside a catch clause.
proof fn lemma_catches_named_catch(
    c: CatchV,
    all: Seq<Seq<char>>,
    all_b: Seq<Seq<char>>,
    open: Seq<Seq<char>>,
    st: CatchNamesV,
    st_b: CatchNamesV,
)
    requires
        same_list(all, all_b),
        same_naming(all, st, st_b),
        no_stack_names(open),
        catches_bind_catch(c, all),
    ensures
        catches_named_catch(c, all, open, st).0 == catches_named_catch(c, all_b, open, st_b).0,
        same_naming(
            all,
            catches_named_catch(c, all, open, st).1,
            catches_named_catch(c, all_b, open, st_b).1,
        ),
    decreases c,
{
    lemma_catch_name(c, all, all_b, open, st, st_b);
    let name = catch_name(c, all, open, st);
    assert(no_stack_names(open.push(name)));
    lemma_catches_named(
        *c.body,
        all,
        all_b,
        open.push(name),
        with_catch_name(c, name, st),
        with_catch_name(c, name, st_b),
    );
}

/// [`lemma_catches_named`] over catch clauses.
proof fn lemma_catches_named_catches(
    v: Seq<CatchV>,
    all: Seq<Seq<char>>,
    all_b: Seq<Seq<char>>,
    open: Seq<Seq<char>>,
    st: CatchNamesV,
    st_b: CatchNamesV,
)
    requires
        same_list(all, all_b),
        same_naming(all, st, st_b),
        no_stack_names(open),
        catches_bind_catches(v, all),
    ensures
        catches_named_catches(v, all, open, st).0 == catches_named_catches(v, all_b, open, st_b).0,
        same_naming(
            all,
            catches_named_catches(v, all, open, st).1,
            catches_named_catches(v, all_b, open, st_b).1,
        ),
    decreases v,
{
    if !(v.len() == 0) {
        lemma_catches_named_catches(v.drop_last(), all, all_b, open, st, st_b);
        let st1 = catches_named_catches(v.drop_last(), all, open, st).1;
        let st1_b = catches_named_catches(v.drop_last(), all_b, open, st_b).1;
        lemma_catches_named_catch(v.last(), all, all_b, open, st1, st1_b);
    }
}

/// Splitting variables does the same whatever stack slots are called.
#[verifier::spinoff_prover]
proof fn lemma_split_walked(s: StmtV, synth: Seq<bool>, st: SplitV, st_b: SplitV)
    requires
        same_split(st, st_b),
    ensures
        split_walked(s, synth, st).0 == split_walked(s, synth, st_b).0,
        same_split(split_walked(s, synth, st).1, split_walked(s, synth, st_b).1),
    decreases s,
{
    match s {
        StmtV::Block(items) => {
            lemma_split_walked_seq(items, synth, st, st_b);
        },
        StmtV::ExprStmt(e) => {
            lemma_assign_walked(e, synth, st, st_b);
        },
        StmtV::LocalDef { var, init, .. } => {
            match init {
                Some(e) => {
                    lemma_assign_split(var, e, synth, st, st_b);
                },
                None => {},
            }
        },
        StmtV::If { then_stmt, else_stmt, .. } => {
            lemma_split_walked(*then_stmt, synth, st, st_b);
            let st2 = split_walked(*then_stmt, synth, st).1;
            let st2_b = split_walked(*then_stmt, synth, st_b).1;
            lemma_split_walked_opt(else_stmt, synth, st2, st2_b);
        },
        StmtV::While { body, .. } => {
            lemma_split_walked(*body, synth, st, st_b);
        },
        StmtV::DoWhile { body, .. } => {
            lemma_split_walked(*body, synth, st, st_b);
        },
        StmtV::For { init, body, .. } => {
            lemma_split_walked_seq(init, synth, st, st_b);
            let st1 = split_walked_seq(init, synth, st).1;
            let st1_b = split_walked_seq(init, synth, st_b).1;
            lemma_split_walked(*body, synth, st1, st1_b);
        },
        StmtV::ForEach { body, .. } => {
            lemma_split_walked(*body, synth, st, st_b);
        },
        StmtV::Switch { cases, default, .. } => {
            lemma_split_walked_cases(cases, synth, st, st_b);
            let st2 = split_walked_cases(cases, synth, st).1;
            let st2_b = split_walked_cases(cases, synth, st_b).1;
            lemma_split_walked_opt(default, synth, st2, st2_b);
        },
        StmtV::Try { body, catches, finally } => {
            lemma_split_walked(*body, synth, st, st_b);
            let st1 = split_walked(*body, synth, st).1;
            let st1_b = split_walked(*body, synth, st_b).1;
            lemma_split_walked_catches(catches, synth, st1, st1_b);
            let st2 = split_walked_catches(catches, synth, st1).1;
            let st2_b = split_walked_catches(catches, synth, st1_b).1;
            lemma_split_walked_opt(finally, synth, st2, st2_b);
        },
        StmtV::TryWithResources { resources, body, catches, finally } => {
            lemma_split_walked_seq(resources, synth, st, st_b);
            let st1 = split_walked_seq(resources, synth, st).1;
            let st1_b = split_walked_seq(resources, synth, st_b).1;
            lemma_split_walked(*body, synth, st1, st1_b);
            let st2 = split_walked(*body, synth, st1).1;
            let st2_b = split_walked(*body, synth, st1_b).1;
            lemma_split_walked_catches(catches, synth, st2, st2_b);
            let st3 = split_walked_catches(catches, synth, st2).1;
            let st3_b = split_walked_catches(catches, synth, st2_b).1;
            lemma_split_walked_opt(finally, synth, st3, st3_b);
        },
        StmtV::Synchronized { body, .. } => {
            lemma_split_walked(*body, synth, st, st_b);
        },
        StmtV::Labeled { body, .. } => {
            lemma_split_walked(*body, synth, st, st_b);
        },
        _ => {},
    }
}

/// [`lemma_split_walked`] where there is a value.
proof fn lemma_split_walked_opt(o: Option<Box<StmtV>>, synth: Seq<bool>, st: SplitV, st_b: SplitV)
    requires
        same_split(st, st_b),
    ensures
        split_walked_opt(o, synth, st).0 == split_walked_opt(o, synth, st_b).0,
        same_split(split_walked_opt(o, synth, st).1, split_walked_opt(o, synth, st_b).1),
    decreases o,
{
    match o {
        Some(x) => {
            lemma_split_walked(*x, synth, st, st_b);
        },
        None => {},
    }
}

/// [`lemma_split_walked`] over a list.
proof fn lemma_split_walked_seq(v: Seq<StmtV>, synth: Seq<bool>, st: SplitV, st_b: SplitV)
    requires
        same_split(st, st_b),
    ensures
        split_walked_seq(v, synth, st).0 == split_walked_seq(v, synth, st_b).0,
        same_split(split_walked_seq(v, synth, st).1, split_walked_seq(v, synth, st_b).1),
    decreases v,
{
    if !(v.len() == 0) {
        lemma_split_walked_seq(v.drop_last(), synth, st, st_b);
        let st1 = split_walked_seq(v.drop_last(), synth, st).1;
        let st1_b = split_walked_seq(v.drop_last(), synth, st_b).1;
        lemma_split_walked(v.last(), synth, st1, st1_b);
    }
}

/// [`lemma_split_walked`] inside a switch arm.
proof fn lemma_split_walked_case(c: CaseGroupV, synth: Seq<bool>, st: SplitV, st_b: SplitV)
    requires
        same_split(st, st_b),
    ensures
        split_walked_case(c, synth, st).0 == split_walked_case(c, synth, st_b).0,
        same_split(split_walked_case(c, synth, st).1, split_walked_case(c, synth, st_b).1),
    decreases c,
{
    lemma_split_walked_seq(c.body, synth, st, st_b);
}

/// [`lemma_split_walked`] over switch arms.
proof fn lemma_split_walked_cases(v: Seq<CaseGroupV>, synth: Seq<bool>, st: SplitV, st_b: SplitV)
    requires
        same_split(st, st_b),
    ensures
        split_walked_cases(v, synth, st).0 == split_walked_cases(v, synth, st_b).0,
        same_split(split_walked_cases(v, synth, st).1, split_walked_cases(v, synth, st_b).1),
    decreases v,
{
    if !(v.len() == 0) {
        lemma_split_walked_cases(v.drop_last(), synth, st, st_b);
        let st1 = split_walked_cases(v.drop_last(), synth, st).1;
        let st1_b = split_walked_cases(v.drop_last(), synth, st_b).1;
        lemma_split_walked_case(v.last(), synth, st1, st1_b);
    }
}

/// [`lemma_split_walked`] inside a catch clause.
proof fn lemma_split_walked_catch(c: CatchV, synth: Seq<bool>, st: SplitV, st_b: SplitV)
    requires
        same_split(st, st_b),
    ensures
        split_walked_catch(c, synth, st).0 == split_walked_catch(c, synth, st_b).0,
        same_split(split_walked_catch(c, synth, st).1, split_walked_catch(c, synth, st_b).1),
    decreases c,
{
    lemma_split_walked(*c.body, synth, st, st_b);
}

/// [`lemma_split_walked`] over catch clauses.
proof fn lemma_split_walked_catches(v: Seq<CatchV>, synth: Seq<bool>, st: SplitV, st_b: SplitV)
    requires
        same_split(st, st_b),
    ensures
        split_walked_catches(v, synth, st).0 == split_walked_catches(v, synth, st_b).0,
        same_split(split_walked_catches(v, synth, st).1, split_walked_catches(v, synth, st_b).1),
    decreases v,
{
    if !(v.len() == 0) {
        lemma_split_walked_catches(v.drop_last(), synth, st, st_b);
        let st1 = split_walked_catches(v.drop_last(), synth, st).1;
        let st1_b = split_walked_catches(v.drop_last(), synth, st_b).1;
        lemma_split_walked_catch(v.last(), synth, st1, st1_b);
    }
}

/// Following copies of truth values does the same whatever stack slots are called.
#[verifier::spinoff_prover]
proof fn lemma_bools_copied(s: StmtV, a: VarTableV, b: VarTableV)
    requires
        same_table(a, b),
    ensures
        same_table(bools_copied(s, a), bools_copied(s, b)),
    decreases s,
{
    match s {
        StmtV::Block(items) => {
            lemma_bools_copied_seq(items, a, b);
        },
        StmtV::ExprStmt(e) => {
            lemma_assign_copied(e, a, b);
        },
        StmtV::LocalDef { var, init, .. } => {
            match init {
                Some(e) => {
                    lemma_bool_copied(Some(var), e, a, b);
                },
                None => {},
            }
        },
        StmtV::If { then_stmt, else_stmt, .. } => {
            lemma_bools_copied(*then_stmt, a, b);
            let vt1 = bools_copied(*then_stmt, a);
            let vt1_b = bools_copied(*then_stmt, b);
            lemma_bools_copied_opt(else_stmt, vt1, vt1_b);
        },
        StmtV::While { body, .. } => {
            lemma_bools_copied(*body, a, b);
        },
        StmtV::DoWhile { body, .. } => {
            lemma_bools_copied(*body, a, b);
        },
        StmtV::For { init, body, .. } => {
            lemma_bools_copied_seq(init, a, b);
            let vt1 = bools_copied_seq(init, a);
            let vt1_b = bools_copied_seq(init, b);
            lemma_bools_copied(*body, vt1, vt1_b);
        },
        StmtV::ForEach { body, .. } => {
            lemma_bools_copied(*body, a, b);
        },
        StmtV::Switch { cases, default, .. } => {
            lemma_bools_copied_cases(cases, a, b);
            let vt1 = bools_copied_cases(cases, a);
            let vt1_b = bools_copied_cases(cases, b);
            lemma_bools_copied_opt(default, vt1, vt1_b);
        },
        StmtV::Try { body, catches, finally } => {
            lemma_bools_copied(*body, a, b);
            let vt1 = bools_copied(*body, a);
            let vt1_b = bools_copied(*body, b);
            lemma_bools_copied_catches(catches, vt1, vt1_b);
            let vt2 = bools_copied_catches(catches, vt1);
            let vt2_b = bools_copied_catches(catches, vt1_b);
            lemma_bools_copied_opt(finally, vt2, vt2_b);
        },
        StmtV::TryWithResources { resources, body, catches, finally } => {
            lemma_bools_copied_seq(resources, a, b);
            let vt1 = bools_copied_seq(resources, a);
            let vt1_b = bools_copied_seq(resources, b);
            lemma_bools_copied(*body, vt1, vt1_b);
            let vt2 = bools_copied(*body, vt1);
            let vt2_b = bools_copied(*body, vt1_b);
            lemma_bools_copied_catches(catches, vt2, vt2_b);
            let vt3 = bools_copied_catches(catches, vt2);
            let vt3_b = bools_copied_catches(catches, vt2_b);
            lemma_bools_copied_opt(finally, vt3, vt3_b);
        },
        StmtV::Synchronized { body, .. } => {
            lemma_bools_copied(*body, a, b);
        },
        StmtV::Labeled { body, .. } => {
            lemma_bools_copied(*body, a, b);
        },
        _ => {},
    }
}

/// [`lemma_bools_copied`] where there is a value.
proof fn lemma_bools_copied_opt(o: Option<Box<StmtV>>, a: VarTableV, b: VarTableV)
    requires
        same_table(a, b),
    ensures
        same_table(bools_copied_opt(o, a), bools_copied_opt(o, b)),
    decreases o,
{
    match o {
        Some(x) => {
            lemma_bools_copied(*x, a, b);
        },
        None => {},
    }
}

/// [`lemma_bools_copied`] over a list.
proof fn lemma_bools_copied_seq(l: Seq<StmtV>, a: VarTableV, b: VarTableV)
    requires
        same_table(a, b),
    ensures
        same_table(bools_copied_seq(l, a), bools_copied_seq(l, b)),
    decreases l,
{
    if !(l.len() == 0) {
        lemma_bools_copied_seq(l.drop_last(), a, b);
        let vt1 = bools_copied_seq(l.drop_last(), a);
        let vt1_b = bools_copied_seq(l.drop_last(), b);
        lemma_bools_copied(l.last(), vt1, vt1_b);
    }
}

/// [`lemma_bools_copied`] inside a switch arm.
proof fn lemma_bools_copied_case(c: CaseGroupV, a: VarTableV, b: VarTableV)
    requires
        same_table(a, b),
    ensures
        same_table(bools_copied_case(c, a), bools_copied_case(c, b)),
    decreases c,
{
    lemma_bools_copied_seq(c.body, a, b);
}

/// [`lemma_bools_copied`] over switch arms.
proof fn lemma_bools_copied_cases(l: Seq<CaseGroupV>, a: VarTableV, b: VarTableV)
    requires
        same_table(a, b),
    ensures
        same_table(bools_copied_cases(l, a), bools_copied_cases(l, b)),
    decreases l,
{
    if !(l.len() == 0) {
        lemma_bools_copied_cases(l.drop_last(), a, b);
        let vt1 = bools_copied_cases(l.drop_last(), a);
        let vt1_b = bools_copied_cases(l.drop_last(), b);
        lemma_bools_copied_case(l.last(), vt1, vt1_b);
    }
}

/// [`lemma_bools_copied`] inside a catch clause.
proof fn lemma_bools_copied_catch(c: CatchV, a: VarTableV, b: VarTableV)
    requires
        same_table(a, b),
    ensures
        same_table(bools_copied_catch(c, a), bools_copied_catch(c, b)),
    decreases c,
{
    lemma_bools_copied(*c.body, a, b);
}

/// [`lemma_bools_copied`] over catch clauses.
proof fn lemma_bools_copied_catches(l: Seq<CatchV>, a: VarTableV, b: VarTableV)
    requires
        same_table(a, b),
    ensures
        same_table(bools_copied_catches(l, a), bools_copied_catches(l, b)),
    decreases l,
{
    if !(l.len() == 0) {
        lemma_bools_copied_catches(l.drop_last(), a, b);
        let vt1 = bools_copied_catches(l.drop_last(), a);
        let vt1_b = bools_copied_catches(l.drop_last(), b);
        lemma_bools_copied_catch(l.last(), vt1, vt1_b);
    }
}

/// Names that would shadow others change in the same way whatever stack slots are called.
#[verifier::spinoff_prover]
proof fn lemma_disambiguated(s: StmtV, st: NamingV, st_b: NamingV)
    requires
        same_scopes(st, st_b),
    ensures
        same_scopes(disambiguated(s, st), disambiguated(s, st_b)),
    decreases s,
{
    match s {
        StmtV::Block(items) => {
            lemma_disambiguated_seq(items, st, st_b);
        },
        StmtV::LocalDef { var, .. } => {
            lemma_declared(var, st, st_b);
        },
        StmtV::If { then_stmt, else_stmt, .. } => {
            lemma_disambiguated(*then_stmt, st, st_b);
            let st1 = disambiguated(*then_stmt, st);
            let st1_b = disambiguated(*then_stmt, st_b);
            lemma_disambiguated_opt(else_stmt, st1, st1_b);
        },
        StmtV::While { body, .. } => {
            lemma_disambiguated(*body, st, st_b);
        },
        StmtV::DoWhile { body, .. } => {
            lemma_disambiguated(*body, st, st_b);
        },
        StmtV::For { init, body, .. } => {
            lemma_disambiguated_seq(init, st, st_b);
            lemma_disambiguated(*body, disambiguated_seq(init, st), disambiguated_seq(init, st_b));
        },
        StmtV::ForEach { var, body, .. } => {
            lemma_declared(var, st, st_b);
            lemma_disambiguated(*body, declared(var, st), declared(var, st_b));
        },
        StmtV::Switch { cases, default, .. } => {
            lemma_disambiguated_cases(cases, st, st_b);
            let st1 = disambiguated_cases(cases, st);
            let st1_b = disambiguated_cases(cases, st_b);
            lemma_disambiguated_opt(default, st1, st1_b);
        },
        StmtV::Try { body, catches, finally } => {
            lemma_disambiguated(*body, st, st_b);
            let st1 = disambiguated(*body, st);
            let st1_b = disambiguated(*body, st_b);
            lemma_disambiguated_catches(catches, st1, st1_b);
            let st2 = disambiguated_catches(catches, st1);
            let st2_b = disambiguated_catches(catches, st1_b);
            lemma_disambiguated_opt(finally, st2, st2_b);
        },
        StmtV::TryWithResources { resources, body, catches, finally } => {
            lemma_disambiguated_seq(resources, st, st_b);
            let st1 = disambiguated_seq(resources, st);
            let st1_b = disambiguated_seq(resources, st_b);
            lemma_disambiguated(*body, st1, st1_b);
            let st2 = disambiguated(*body, st1);
            let st2_b = disambiguated(*body, st1_b);
            lemma_disambiguated_catches(catches, st2, st2_b);
            let st3 = disambiguated_catches(catches, st2);
            let st3_b = disambiguated_catches(catches, st2_b);
            lemma_disambiguated_opt(finally, st3, st3_b);
        },
        StmtV::Synchronized { body, .. } => {
            lemma_disambiguated(*body, st, st_b);
        },
        StmtV::Labeled { body, .. } => {
            lemma_disambiguated(*body, st, st_b);
        },
        _ => {},
    }
}

/// [`lemma_disambiguated`] where there is a value.
proof fn lemma_disambiguated_opt(o: Option<Box<StmtV>>, st: NamingV, st_b: NamingV)
    requires
        same_scopes(st, st_b),
    ensures
        same_scopes(disambiguated_opt(o, st), disambiguated_opt(o, st_b)),
    decreases o,
{
    match o {
        Some(x) => {
            lemma_disambiguated(*x, st, st_b);
        },
        None => {},
    }
}

/// [`lemma_disambiguated`] over a list.
proof fn lemma_disambiguated_seq(l: Seq<StmtV>, st: NamingV, st_b: NamingV)
    requires
        same_scopes(st, st_b),
    ensures
        same_scopes(disambiguated_seq(l, st), disambiguated_seq(l, st_b)),
    decreases l,
{
    if !(l.len() == 0) {
        lemma_disambiguated_seq(l.drop_last(), st, st_b);
        let st1 = disambiguated_seq(l.drop_last(), st);
        let st1_b = disambiguated_seq(l.drop_last(), st_b);
        lemma_disambiguated(l.last(), st1, st1_b);
    }
}

/// [`lemma_disambiguated`] inside a switch arm.
proof fn lemma_disambiguated_case(c: CaseGroupV, st: NamingV, st_b: NamingV)
    requires
        same_scopes(st, st_b),
    ensures
        same_scopes(disambiguated_case(c, st), disambiguated_case(c, st_b)),
    decreases c,
{
    lemma_disambiguated_seq(c.body, st, st_b);
}

/// [`lemma_disambiguated`] over switch arms.
proof fn lemma_disambiguated_cases(l: Seq<CaseGroupV>, st: NamingV, st_b: NamingV)
    requires
        same_scopes(st, st_b),
    ensures
        same_scopes(disambiguated_cases(l, st), disambiguated_cases(l, st_b)),
    decreases l,
{
    if !(l.len() == 0) {
        lemma_disambiguated_cases(l.drop_last(), st, st_b);
        let st1 = disambiguated_cases(l.drop_last(), st);
        let st1_b = disambiguated_cases(l.drop_last(), st_b);
        lemma_disambiguated_case(l.last(), st1, st1_b);
    }
}

/// [`lemma_disambiguated`] inside a catch clause.
proof fn lemma_disambiguated_catch(c: CatchV, st: NamingV, st_b: NamingV)
    requires
        same_scopes(st, st_b),
    ensures
        same_scopes(disambiguated_catch(c, st), disambiguated_catch(c, st_b)),
    decreases c,
{
    lemma_declared(c.var, st, st_b);
    let st1 = if c.var != u32::MAX { declared(c.var, st) } else { st };
    let st1_b = if c.var != u32::MAX { declared(c.var, st_b) } else { st_b };
    lemma_disambiguated(*c.body, st1, st1_b);
}

/// [`lemma_disambiguated`] over catch clauses.
proof fn lemma_disambiguated_catches(l: Seq<CatchV>, st: NamingV, st_b: NamingV)
    requires
        same_scopes(st, st_b),
    ensures
        same_scopes(disambiguated_catches(l, st), disambiguated_catches(l, st_b)),
    decreases l,
{
    if !(l.len() == 0) {
        lemma_disambiguated_catches(l.drop_last(), st, st_b);
        let st1 = disambiguated_catches(l.drop_last(), st);
        let st1_b = disambiguated_catches(l.drop_last(), st_b);
        lemma_disambiguated_catch(l.last(), st1, st1_b);
    }
}

// ---------------------------------------------------------------------
// Whole methods.

/// Names that are the same give tables that are the same.
proof fn lemma_with_names(
    a: VarTableV,
    b: VarTableV,
    x: Seq<Seq<char>>,
    y: Seq<Seq<char>>,
)
    requires
        same_table(a, b),
        same_list(x, y),
    ensures
        same_table(with_names(a, x), with_names(b, y)),
{
    let p = with_names(a, x);
    let q = with_names(b, y);
    assert forall|i: int|
        #![trigger p.vars[i]]
        #![trigger q.vars[i]]
        0 <= i < p.vars.len() implies same_var(p.vars[i], q.vars[i]) by {
        assert(same_var(a.vars[i], b.vars[i]));
        if i < x.len() {
            assert(same_name(x[i], y[i]));
        }
    }
}

/// Types are inferred alike.
proof fn lemma_types_inferred(
    a: VarTableV,
    b: VarTableV,
    body: StmtV,
    ret: JTypeV,
    pc: PoolClassV,
)
    requires
        same_table(a, b),
    ensures
        same_table(types_inferred(a, body, ret, pc), types_inferred(b, body, ret, pc)),
{
    let x = types_inferred(a, body, ret, pc);
    let y = types_inferred(b, body, ret, pc);
    assert(body_evidence(a, body, ret) == body_evidence(b, body, ret));
    assert forall|i: int|
        #![trigger x.vars[i]]
        #![trigger y.vars[i]]
        0 <= i < x.vars.len() implies same_var(x.vars[i], y.vars[i]) by {
        assert(same_var(a.vars[i], b.vars[i]));
    }
}

/// Rounds of following copies give the same types.
proof fn lemma_bool_rounds(s: StmtV, a: VarTableV, b: VarTableV, n: nat)
    requires
        same_table(a, b),
    ensures
        same_table(bool_rounds(s, a, n), bool_rounds(s, b, n)),
    decreases n,
{
    if n > 0 {
        lemma_bool_rounds(s, a, b, (n - 1) as nat);
        lemma_bools_copied(s, bool_rounds(s, a, (n - 1) as nat), bool_rounds(s, b, (n - 1) as nat));
    }
}

/// Type inference does the same.
proof fn lemma_inference(a: VarTableV, b: VarTableV, body: StmtV, ret: JTypeV, pc: PoolClassV)
    requires
        same_table(a, b),
    ensures
        inference(a, body, ret, pc).1 == inference(b, body, ret, pc).1,
        same_table(inference(a, body, ret, pc).0, inference(b, body, ret, pc).0),
{
    lemma_types_inferred(a, b, body, ret, pc);
    let x = types_inferred(a, body, ret, pc);
    let y = types_inferred(b, body, ret, pc);
    assert(splittable(x) =~= splittable(y)) by {
        assert forall|i: int|
            0 <= i < x.vars.len() implies splittable(x)[i] == splittable(y)[i] by {
            assert(same_var(x.vars[i], y.vars[i]));
        }
    }
    assert(same_split(split_start(x), split_start(y)));
    lemma_split_walked(body, splittable(x), split_start(x), split_start(y));
    let s = split_done(body, x).0;
    lemma_bool_rounds(s, split_done(body, x).1, split_done(body, y).1, 4);
    let p = bool_rounds(s, split_done(body, x).1, 4);
    let q = bool_rounds(s, split_done(body, y).1, 4);
    assert(var_types(p) =~= var_types(q)) by {
        assert forall|i: int| 0 <= i < p.vars.len() implies var_types(p)[i] == var_types(q)[i] by {
            assert(same_var(p.vars[i], q.vars[i]));
        }
    }
}

/// Tables that are the same hold the same names.
proof fn lemma_var_names(a: VarTableV, b: VarTableV)
    requires
        same_table(a, b),
    ensures
        same_list(var_names(a), var_names(b)),
{
    let x = var_names(a);
    let y = var_names(b);
    assert forall|i: int|
        #![trigger x[i]]
        #![trigger y[i]]
        0 <= i < x.len() implies same_name(x[i], y[i]) by {
        assert(same_var(a.vars[i], b.vars[i]));
    }
}

/// Catch clauses are named alike.
proof fn lemma_caught(x: DraftV, y: DraftV)
    requires
        x.body == y.body,
        same_table(x.vt, y.vt),
        binds_no_slot(x),
    ensures
        caught(x).body == caught(y).body,
        same_table(caught(x).vt, caught(y).vt),
{
    lemma_catch_vars_resolved(x.body, x.vt, y.vt);
    let (s, a) = catch_vars_resolved(x.body, x.vt);
    let b = catch_vars_resolved(y.body, y.vt).1;
    lemma_var_names(a, b);
    let p = CatchNamesV { names: var_names(a), used: var_names(a) };
    let q = CatchNamesV { names: var_names(b), used: var_names(b) };
    lemma_catches_named(s, var_names(a), var_names(b), seq![], p, q);
    lemma_with_names(a, b, all_catches_named(s, a).1.names, all_catches_named(s, b).1.names);
}

/// No catch clause binds a variable named like a stack slot, once catch variables are
/// found.
pub open spec fn binds_no_slot(d: DraftV) -> bool {
    let (s, vt) = catch_vars_resolved(d.body, d.vt);
    catches_bind(s, var_names(vt))
}

/// A body is refined alike.
proof fn lemma_refined(x: DraftV, y: DraftV, pc: PoolClassV, pool: ClassPoolV, ret: JTypeV)
    requires
        x.body == y.body,
        same_table(x.vt, y.vt),
        binds_no_slot(x),
    ensures
        refined(x, pc, pool, ret).body == refined(y, pc, pool, ret).body,
        same_table(refined(x, pc, pool, ret).vt, refined(y, pc, pool, ret).vt),
{
    lemma_caught(x, y);
    let p = caught(x);
    let q = caught(y);
    lemma_stores_dropped(sync_stripped(rebuilt(p.body)), p.vt, q.vt);
    assert(guarded(p.body, p.vt, pool) == guarded(q.body, q.vt, pool));
    let s = settled(closed_up(guarded(p.body, p.vt, pool)), p.vt.stack_vars, ret);
    lemma_inference(p.vt, q.vt, s, ret, pc);
    let (a, body) = inference(p.vt, s, ret, pc);
    let b = inference(q.vt, s, ret, pc).0;
    lemma_pruned(body, a, b, read_set(body));
}

/// Every variable is declared alike.
proof fn lemma_all_declared(s: StmtV, a: VarTableV, b: VarTableV)
    requires
        same_table(a, b),
    ensures
        crate::method::declared(s, a) == crate::method::declared(s, b),
{
    lemma_same_reads(a, b);
    let once = deduped(s, seq![]).0;
    assert(missing_vars(once, a) =~= missing_vars(once, b));
    assert forall|v: u32| #[trigger] default_init(a, v) == default_init(b, v) by {}
    let l = in_order(missing_vars(once, a));
    assert(l.map_values(|v: u32| missing_decl(once, a, v)) =~= l.map_values(
        |v: u32| missing_decl(once, b, v),
    ));
    let all = with_decls(once, l.map_values(|v: u32| missing_decl(once, a, v)));
    let t = deduped(cleaned(all), seq![]).0;
    let plain = rethrows_dropped(t);
    let escaped = escaped_vars(t);
    lemma_defs_demoted(plain, escaped, a, b);
    let (placed, done) = loop_declared(
        plain,
        defs_demoted(plain, escaped, a),
        in_order(escaped).reverse(),
    );
    let rest = in_order(escaped.difference(done));
    assert(top_decls(placed, a, rest) =~= top_decls(placed, b, rest)) by {
        assert forall|i: int| 0 <= i < rest.len() implies top_decls(placed, a, rest)[i]
            == top_decls(placed, b, rest)[i] by {
            assert(default_init(a, rest[i]) == default_init(b, rest[i]));
        }
    }
    assert(escaped_hoisted(t, a) == escaped_hoisted(t, b));
}

/// Where the numbers of stack slots start makes no difference to a decompiled method but to
/// the names of those slots: from the same structured body, and variables that differ only
/// in them, the same body and the same variables come out. Left out are catch clauses that
/// bind a variable named like a stack slot: the body shows that name.
pub proof fn law_output_ignores_numbers(
    x: DraftV,
    y: DraftV,
    pc: PoolClassV,
    pool: ClassPoolV,
    ret: JTypeV,
    links: Seq<SuperLinkV>,
    facts: Seq<CastFactsV>,
    is_ctor: bool,
    failed: nat,
)
    requires
        x.body == y.body,
        alike(x.vt, y.vt),
        binds_no_slot(x),
    ensures
        ({
            let p = refined(x, pc, pool, ret);
            let q = refined(y, pc, pool, ret);
            let f = finished_body(p, pc, pool, ret, links, facts, is_ctor, failed);
            let g = finished_body(q, pc, pool, ret, links, facts, is_ctor, failed);
            f.body == g.body && same_table(f.vt, g.vt)
        }),
{
    lemma_same_table(x.vt, y.vt);
    lemma_refined(x, y, pc, pool, ret);
    let p = refined(x, pc, pool, ret);
    let q = refined(y, pc, pool, ret);
    let a = p.vt;
    let b = q.vt;
    lemma_generic_cast(p.body, a, b, pool, pc, links, facts, 0);
    let typed = returns_typed(generic_cast(p.body, a, pool, pc, links, facts, 0).0, ret);
    lemma_narrowing_cast(typed, a, b);
    let s = made_whole(casts_added(p, pc, pool, ret, links, facts), pc, is_ctor);
    assert(s == made_whole(casts_added(q, pc, pool, ret, links, facts), pc, is_ctor));
    lemma_all_declared(s, a, b);
    let jumps = jumps_settled(crate::method::declared(s, a));
    let m = NamingV { names: var_names(a), visible: seq![], used: seq![] };
    let n = NamingV { names: var_names(b), visible: seq![], used: seq![] };
    assert(same_scopes(m, n)) by {
        lemma_var_names(a, b);
    }
    lemma_disambiguated(jumps, m, n);
    lemma_with_names(a, b, names_disambiguated(jumps, a), names_disambiguated(jumps, b));
}

/// A method becomes the same whatever was decompiled before it. The blocks that stacks are
/// carried through, and what they leave, do not depend on the number that the next stack
/// slot gets; and whatever body they are structured into, it is refined and finished to
/// the same body and the same variables, but for the names of stack slots.
pub proof fn law_method_ignores_numbers(
    rt: RouteV,
    vt: VarTableV,
    m: u64,
    n: u64,
    body: StmtV,
    ret: JTypeV,
    links: Seq<SuperLinkV>,
    facts: Seq<CastFactsV>,
    is_ctor: bool,
)
    requires
        binds_no_slot(DraftV { body, vt: carried(rt, vt, m).vt }),
    ensures
        ({
            let s = carried(rt, vt, m);
            let t = carried(rt, vt, n);
            let f = finished_body(
                refined(DraftV { body, vt: s.vt }, rt.pc, rt.pool, ret),
                rt.pc,
                rt.pool,
                ret,
                links,
                facts,
                is_ctor,
                count_some(s.errors),
            );
            let g = finished_body(
                refined(DraftV { body, vt: t.vt }, rt.pc, rt.pool, ret),
                rt.pc,
                rt.pool,
                ret,
                links,
                facts,
                is_ctor,
                count_some(t.errors),
            );
            &&& same_flow(s, t)
            &&& f.body == g.body
            &&& same_table(f.vt, g.vt)
        }),
{
    law_numbers_only_name(rt, vt, m, n);
    let s = carried(rt, vt, m);
    let t = carried(rt, vt, n);
    law_output_ignores_numbers(
        DraftV { body, vt: s.vt },
        DraftV { body, vt: t.vt },
        rt.pc,
        rt.pool,
        ret,
        links,
        facts,
        is_ctor,
        count_some(s.errors),
    );
}

} // verus!
