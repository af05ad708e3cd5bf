//! The body of a lambda, seen from the method that holds it.
use crate::catches::{names_of, set_names, var_names, with_names};
use crate::classes::{own_method, pool_get, ClassPool, ClassPoolV, PoolClass, PoolClassV};
use crate::expr::{as_local, exprs, local_var, type_of, LambdaExpr, LambdaExprV};
use crate::labels::{
    breaks_pruned, demote_undefined_label_jumps, prune_post_loop_label_breaks, undefined_demoted,
};
use crate::retype::{rewrite_local_types, stmt_retyped, type_refs};
use crate::signatures::desc_text;
use crate::stmt::Stmt;
use crate::types::{str_eq, strs, TypeRef, TypeRefV};
use crate::var::{var_infos, VarInfo, VarInfoV, VarTable, VarTableV};
use vstd::prelude::*;

verus! {

/// The class and the index of the method that a lambda is bound to.
pub open spec fn impl_of(pool: ClassPoolV, l: LambdaExprV) -> Option<(PoolClassV, int)> {
    match pool_get(pool, l.impl_owner) {
        Some(c) => match own_method(c, c.methods.len(), l.impl_name, desc_text(l.impl_desc)) {
            Some(i) => Some((c, i)),
            None => None,
        },
        None => None,
    }
}

/// The class and the index of the method that a lambda is bound to.
pub fn find_impl<'a>(pool: &'a ClassPool, l: &LambdaExpr) -> (r: Option<(&'a PoolClass, usize)>)
    ensures
        match r {
            Some((c, i)) => impl_of(pool@, l@) == Some((c@, i as int)),
            None => impl_of(pool@, l@) is None,
        },
{
    match pool.get(l.impl_owner.as_str()) {
        Some(c) => {
            let desc = l.impl_desc.text();
            match c.find_own_method(l.impl_name.as_str(), desc.as_str()) {
                Some(i) => Some((c, i)),
                None => None,
            }
        },
        None => None,
    }
}

// ---------------------------------------------------------------------
// Names.

/// A parameter other than `this`.
pub open spec fn is_plain_param(v: VarInfoV) -> bool {
    v.is_param && v.name != "this"@
}

/// The indices of the parameters other than `this` among the first `n` variables.
pub open spec fn plain_params(vars: Seq<VarInfoV>, n: nat) -> Seq<int>
    decreases n,
{
    if n == 0 {
        seq![]
    } else {
        let front = plain_params(vars, (n - 1) as nat);
        if is_plain_param(vars[n - 1]) {
            front.push(n - 1)
        } else {
            front
        }
    }
}

/// How many parameters of the method take captured values: those before the parameters of
/// the functional method.
pub open spec fn captured_params(params: nat, sam: nat) -> nat {
    if params > sam {
        (params - sam) as nat
    } else {
        0
    }
}

/// The index of the capture for the first of `n` captured parameters. A captured receiver
/// of an instance method comes first and is no parameter.
pub open spec fn first_capture(l: LambdaExprV, n: nat) -> nat {
    if l.impl_is_static || l.captures.len() <= n {
        0
    } else {
        (l.captures.len() - n) as nat
    }
}

/// The name in the holding method of what capture `i` captures.
pub open spec fn captured_name(l: LambdaExprV, outer: VarTableV, i: int) -> Option<Seq<char>> {
    if 0 <= i < l.captures.len() {
        match as_local(l.captures[i]) {
            Some(var) => if var < outer.vars.len() {
                Some(outer.vars[var as int].name)
            } else {
                None
            },
            None => None,
        }
    } else {
        None
    }
}

/// The names once the first `n` captured parameters are called what they capture.
pub open spec fn names_synced(
    names: Seq<Seq<char>>,
    params: Seq<int>,
    l: LambdaExprV,
    outer: VarTableV,
    first: nat,
    n: nat,
) -> Seq<Seq<char>>
    decreases n,
{
    if n == 0 {
        names
    } else {
        let front = names_synced(names, params, l, outer, first, (n - 1) as nat);
        match captured_name(l, outer, first + n - 1) {
            Some(name) => front.update(params[n - 1], name),
            None => front,
        }
    }
}

/// The names once the first `n` snapshots are taken: a captured variable that changes is
/// copied, and the body reads the copy.
pub open spec fn names_snapped(
    names: Seq<Seq<char>>,
    snaps: Seq<(u32, u32, Seq<char>)>,
    n: nat,
) -> Seq<Seq<char>>
    decreases n,
{
    if n == 0 {
        names
    } else {
        let front = names_snapped(names, snaps, (n - 1) as nat);
        let (_, id, name) = snaps[n - 1];
        if id < front.len() {
            front.update(id as int, name)
        } else {
            front
        }
    }
}

/// The variable names of a lambda's body where it stands in `outer`.
pub open spec fn nested_names(l: LambdaExprV, vt: VarTableV, outer: VarTableV) -> Seq<Seq<char>> {
    let params = plain_params(vt.vars, vt.vars.len());
    let n = captured_params(params.len(), l.param_names.len());
    names_snapped(
        names_synced(var_names(vt), params, l, outer, first_capture(l, n), n),
        l.capture_snaps,
        l.capture_snaps.len(),
    )
}

/// The indices are in range.
proof fn lemma_plain_params(vars: Seq<VarInfoV>, n: nat)
    requires
        n <= vars.len(),
    ensures
        plain_params(vars, n).len() <= n,
        forall|i: int|
            0 <= i < plain_params(vars, n).len() ==> 0 <= #[trigger] plain_params(vars, n)[i] < n,
    decreases n,
{
    if n > 0 {
        lemma_plain_params(vars, (n - 1) as nat);
    }
}

/// Model of indices.
pub open spec fn index_list(v: Seq<usize>) -> Seq<int> {
    Seq::new(v.len(), |i: int| v[i] as int)
}

/// Whether a variable is a parameter other than `this`.
fn plain_param(v: &VarInfo) -> (r: bool)
    ensures
        r == is_plain_param(v@),
{
    v.is_param && !str_eq(v.name.as_str(), "this")
}

/// The indices of the parameters other than `this`.
#[verifier::loop_isolation(false)]
fn find_params(vars: &Vec<VarInfo>) -> (r: Vec<usize>)
    ensures
        index_list(r@) == plain_params(var_infos(vars@), vars@.len()),
{
    let ghost all = var_infos(vars@);
    let mut r: Vec<usize> = Vec::new();
    let mut i: usize = 0;
    assert(index_list(r@) =~= seq![]);
    while i < vars.len()
        invariant
            i <= vars.len(),
            index_list(r@) == plain_params(all, i as nat),
        decreases vars.len() - i,
    {
        assert(all[i as int] == vars@[i as int]@);
        let ghost front = index_list(r@);
        if plain_param(&vars[i]) {
            r.push(i);
            assert(index_list(r@) =~= front.push(i as int));
        }
        i += 1;
    }
    r
}

/// The name in the holding method of what capture `i` captures.
fn name_captured(l: &LambdaExpr, outer: &VarTable, i: usize) -> (r: Option<String>)
    ensures
        crate::types::opt_str(r) == captured_name(l@, outer@, i as int),
{
    assert(exprs(l.captures@).len() == l.captures@.len());
    assert(outer@.vars.len() == outer.vars@.len());
    if i >= l.captures.len() {
        return None;
    }
    assert(exprs(l.captures@)[i as int] == l.captures@[i as int]@);
    match local_var(&l.captures[i]) {
        Some(var) => if (var as usize) < outer.vars.len() {
            assert(outer@.vars[var as int] == outer.vars@[var as int]@);
            Some(outer.vars[var as usize].name.clone())
        } else {
            None
        },
        None => None,
    }
}

/// Calls the captured parameters what they capture.
#[verifier::loop_isolation(false)]
#[verifier::spinoff_prover]
fn sync_names(
    names: &mut Vec<String>,
    params: &Vec<usize>,
    l: &LambdaExpr,
    outer: &VarTable,
    first: usize,
    n: usize,
)
    requires
        n <= params.len(),
        n == 0 || first + n <= usize::MAX,
        forall|i: int| 0 <= i < params.len() ==> (#[trigger] params@[i]) < old(names).len(),
    ensures
        strs(final(names)@) == names_synced(
            strs(old(names)@),
            index_list(params@),
            l@,
            outer@,
            first as nat,
            n as nat,
        ),
{
    let ghost start = strs(names@);
    let ghost ps = index_list(params@);
    let mut i: usize = 0;
    while i < n
        invariant
            i <= n,
            names.len() == old(names).len(),
            strs(names@) == names_synced(start, ps, l@, outer@, first as nat, i as nat),
        decreases n - i,
    {
        let ghost front = strs(names@);
        assert(ps[i as int] == params@[i as int]);
        if let Some(name) = name_captured(l, outer, first + i) {
            let ghost text = name@;
            let p = params[i];
            names[p] = name;
            assert(strs(names@) =~= front.update(p as int, text));
        }
        i += 1;
    }
}

/// Takes the snapshots.
#[verifier::loop_isolation(false)]
fn snap_names(names: &mut Vec<String>, l: &LambdaExpr)
    ensures
        strs(final(names)@) == names_snapped(
            strs(old(names)@),
            l@.capture_snaps,
            l@.capture_snaps.len(),
        ),
{
    let ghost start = strs(names@);
    let ghost all = l@.capture_snaps;
    assert(all.len() == l.capture_snaps@.len());
    let mut i: usize = 0;
    while i < l.capture_snaps.len()
        invariant
            i <= l.capture_snaps.len(),
            strs(names@) == names_snapped(start, all, i as nat),
        decreases l.capture_snaps.len() - i,
    {
        let ghost front = strs(names@);
        assert(front.len() == names@.len());
        let id = l.capture_snaps[i].1 as usize;
        assert(all[i as int].1 == id);
        assert(all[i as int].2 == l.capture_snaps@[i as int].2@);
        if id < names.len() {
            names[id] = l.capture_snaps[i].2.clone();
            assert(strs(names@) =~= front.update(id as int, all[i as int].2));
        }
        i += 1;
    }
}

/// Calls the variables of a lambda's body what the method that holds it, `outer`, calls
/// what they capture.
pub fn name_nested(l: &LambdaExpr, vt: &mut VarTable, outer: &VarTable)
    ensures
        final(vt)@ == with_names(old(vt)@, nested_names(l@, old(vt)@, outer@)),
{
    let mut names = names_of(vt);
    let params = find_params(&vt.vars);
    assert(exprs(l.captures@).len() == l.captures@.len());
    assert(strs(l.param_names@).len() == l.param_names@.len());
    let nsam = l.param_names.len();
    let n: usize = if params.len() > nsam {
        params.len() - nsam
    } else {
        0
    };
    let first: usize = if l.impl_is_static || l.captures.len() <= n {
        0
    } else {
        l.captures.len() - n
    };
    proof {
        let ps = plain_params(vt@.vars, vt@.vars.len());
        lemma_plain_params(vt@.vars, vt@.vars.len());
        assert(strs(names@).len() == names@.len());
        assert(ps.len() == params@.len());
        assert forall|i: int|
            0 <= i < params.len() implies (#[trigger] params@[i]) < names.len() by {
            assert(ps[i] == params@[i]);
        }
        assert(ps == index_list(params@));
    }
    sync_names(&mut names, &params, l, outer, first, n);
    snap_names(&mut names, l);
    set_names(vt, &names);
}

// ---------------------------------------------------------------------
// Types.

/// How many of the first `n` variables are parameters other than `this`.
pub open spec fn params_before(vars: Seq<VarInfoV>, n: nat) -> nat {
    plain_params(vars, n).len()
}

/// The capture type that variable `i` is lifted to: the generic type of what a parameter
/// captures, where its own type is erased.
pub open spec fn lifted_to(l: LambdaExprV, vars: Seq<VarInfoV>, i: int) -> Option<TypeRefV> {
    let k = params_before(vars, i as nat);
    if is_plain_param(vars[i]) && k < l.captures.len() && type_of(l.captures[k as int]) is G
        && !(vars[i].ty is G) {
        Some(type_of(l.captures[k as int]))
    } else {
        None
    }
}

/// The types of the first `n` variables, lifted.
pub open spec fn types_lifted(l: LambdaExprV, vars: Seq<VarInfoV>) -> Seq<TypeRefV> {
    Seq::new(
        vars.len(),
        |i: int|
            match lifted_to(l, vars, i) {
                Some(t) => t,
                None => vars[i].ty,
            },
    )
}

/// Some variable is lifted.
pub open spec fn lifts(l: LambdaExprV, vars: Seq<VarInfoV>) -> bool {
    exists|i: int| 0 <= i < vars.len() && #[trigger] lifted_to(l, vars, i) is Some
}

/// A table with other types.
pub open spec fn with_types(vt: VarTableV, types: Seq<TypeRefV>) -> VarTableV {
    VarTableV {
        vars: Seq::new(vt.vars.len(), |i: int| VarInfoV { ty: types[i], ..vt.vars[i] }),
        ..vt
    }
}

/// The type that variable `i` has, lifted; `k` parameters come before it.
fn lift_one(l: &LambdaExpr, v: &VarInfo, k: usize) -> (r: Option<TypeRef>)
    ensures
        crate::types::opt_type(r) == if is_plain_param(v@) && k < l@.captures.len() && type_of(
            l@.captures[k as int],
        ) is G && !(v@.ty is G) {
            Some(type_of(l@.captures[k as int]))
        } else {
            None
        },
{
    assert(exprs(l.captures@).len() == l.captures@.len());
    if !plain_param(v) || k >= l.captures.len() {
        return None;
    }
    assert(exprs(l.captures@)[k as int] == l.captures@[k as int]@);
    let t = l.captures[k].type_ref();
    let generic = matches!(t, TypeRef::G(_));
    let own = matches!(v.ty, TypeRef::G(_));
    if generic && !own {
        Some(t)
    } else {
        None
    }
}

/// Lifts the parameters of a lambda's body to the generic types of what they capture, and
/// its body with them.
#[verifier::loop_isolation(false)]
#[verifier::spinoff_prover]
pub fn lift_captures(l: &LambdaExpr, vt: &mut VarTable, body: &mut Stmt)
    ensures
        final(vt)@ == with_types(old(vt)@, types_lifted(l@, old(vt)@.vars)),
        final(body)@ == if lifts(l@, old(vt)@.vars) {
            stmt_retyped(old(body)@, types_lifted(l@, old(vt)@.vars))
        } else {
            old(body)@
        },
{
    let ghost start = vt@;
    let ghost vars = vt@.vars;
    let ghost goal = types_lifted(l@, vars);
    let mut types: Vec<TypeRef> = Vec::new();
    let mut k: usize = 0;
    let mut lifted = false;
    let mut i: usize = 0;
    assert(type_refs(types@) =~= goal.take(0));
    assert(vars.len() == vt.vars@.len());
    while i < vt.vars.len()
        invariant
            i <= vt.vars.len(),
            k <= i,
            k == params_before(vars, i as nat),
            vt.vars.len() == vars.len(),
            type_refs(types@) == goal.take(i as int),
            lifted == exists|j: int| 0 <= j < i && #[trigger] lifted_to(l@, vars, j) is Some,
            (VarTableV { vars, ..vt@ }) == start,
            forall|j: int|
                0 <= j < vars.len() ==> #[trigger] vt@.vars[j] == if j < i {
                    (VarInfoV { ty: goal[j], ..vars[j] })
                } else {
                    vars[j]
                },
        decreases vt.vars.len() - i,
    {
        let ghost before = vt@;
        let ghost front = type_refs(types@);
        assert(vt@.vars[i as int] == vars[i as int]);
        assert(vt.vars@[i as int]@ == vars[i as int]);
        let t = lift_one(l, &vt.vars[i], k);
        assert(crate::types::opt_type(t) == lifted_to(l@, vars, i as int));
        if plain_param(&vt.vars[i]) {
            k += 1;
        }
        if let Some(ty) = t {
            lifted = true;
            assert(lifted_to(l@, vars, i as int) is Some);
            vt.vars[i].ty = ty;
        }
        types.push(vt.vars[i].ty.clone());
        assert(goal[i as int] == vt.vars@[i as int].ty@);
        assert(type_refs(types@) =~= front.push(goal[i as int]));
        assert(goal.take(i + 1) =~= goal.take(i as int).push(goal[i as int]));
        assert(vt@.vars =~= before.vars.update(
            i as int,
            VarInfoV { ty: goal[i as int], ..vars[i as int] },
        ));
        i += 1;
    }
    assert(goal.take(i as int) =~= goal);
    assert(vt@.vars =~= with_types(start, goal).vars);
    if lifted {
        rewrite_local_types(body, &types);
    }
}

/// Removes the jumps of a lambda's body that lead nowhere.
pub fn settle_nested(body: &mut Stmt)
    ensures
        final(body)@ == undefined_demoted(breaks_pruned(old(body)@)),
{
    prune_post_loop_label_breaks(body);
    demote_undefined_label_jumps(body);
}

/// Lifting keeps the number of variables, their names and every type that is generic
/// already.
pub proof fn law_lifting_keeps_generic_types(l: LambdaExprV, vt: VarTableV, i: int)
    requires
        0 <= i < vt.vars.len(),
    ensures
        ({
            let r = with_types(vt, types_lifted(l, vt.vars));
            &&& r.vars.len() == vt.vars.len()
            &&& r.vars[i].name == vt.vars[i].name
            &&& vt.vars[i].ty is G ==> r.vars[i].ty == vt.vars[i].ty
        }),
{
}

} // verus!
