//! Dynamic call sites: lambdas, method references and string concatenation.
use crate::classes::{
    class_name_at, constant_at, lemma_own_method_bound, member_ref_at, name_and_type_at, own_method,
    string_at, utf8_at, Constant, ConstantV, LocalRange, PoolClass, PoolClassV,
};
use crate::expr::{
    bsm_args, clone_expr, concat_parts, exprs, snaps, BsmArg, BsmArgV, ConcatPart, ConcatPartV,
    Expr, ExprV, LambdaExpr, LambdaExprV, LambdaKind,
};
use crate::invoke::{produce, produced};
use crate::signatures::{method_descriptor, parse_method_descriptor};
use crate::sim::{failure, popped_args, step_outcome, BuildError, Sim, SimV};
use crate::text::{append_decimal, numbered};
use crate::types::{
    has_prefix, java_types, opt_desc, opt_str, slot_size, starts_with, str_eq, strs, JType, JTypeV,
    MethodDescriptor, MethodDescriptorV,
};
use crate::values::{booleanize, booleanized, parse_concat_recipe, recipe_parts};
use vstd::prelude::*;

verus! {

/// Reference kind of a virtual call.
pub const REF_INVOKE_VIRTUAL: u8 = 5;

/// Reference kind of a static call.
pub const REF_INVOKE_STATIC: u8 = 6;

/// Reference kind of an interface call.
pub const REF_INVOKE_INTERFACE: u8 = 9;

// ---------------------------------------------------------------------
// Names of lambda parameters.

/// The made-up name of parameter `i`.
pub open spec fn made_up_name(i: nat) -> Seq<char> {
    numbered(seq!['x'], i)
}

/// Made-up names for `n` parameters.
pub open spec fn made_up_names(n: nat) -> Seq<Seq<char>> {
    Seq::new(n, |i: int| made_up_name(i as nat))
}

/// A local of slot `slot` that lives from the start of the code and has a name.
pub open spec fn names_slot(pc: PoolClassV, r: LocalRange, slot: int) -> bool {
    r.start_pc == 0 && r.index == slot && utf8_at(pc, r.name_index) is Some
}

/// The name of the first local of slot `slot` that lives from the start of the code.
pub open spec fn slot_name(pc: PoolClassV, ranges: Seq<LocalRange>, slot: int) -> Option<Seq<char>>
    decreases ranges.len(),
{
    if ranges.len() == 0 {
        None
    } else {
        match slot_name(pc, ranges.drop_last(), slot) {
            Some(n) => Some(n),
            None => if names_slot(pc, ranges.last(), slot) {
                utf8_at(pc, ranges.last().name_index)
            } else {
                None
            },
        }
    }
}

/// The slot after parameters of these types.
pub open spec fn slot_after(types: Seq<JTypeV>, base: int) -> int
    decreases types.len(),
{
    if types.len() == 0 {
        base
    } else {
        slot_after(types.drop_last(), base) + slot_size(types.last())
    }
}

/// The names of at most `n` parameters of these types, the first `skip` left out.
pub open spec fn param_names(
    pc: PoolClassV,
    ranges: Seq<LocalRange>,
    types: Seq<JTypeV>,
    skip: nat,
    n: nat,
    base: int,
) -> Seq<Seq<char>>
    decreases types.len(),
{
    if types.len() == 0 {
        seq![]
    } else {
        let front = param_names(pc, ranges, types.drop_last(), skip, n, base);
        if types.len() - 1 >= skip && front.len() < n {
            front.push(
                match slot_name(pc, ranges, slot_after(types.drop_last(), base)) {
                    Some(name) => name,
                    None => made_up_name(front.len()),
                },
            )
        } else {
            front
        }
    }
}

/// The parameter names of the method that a lambda calls: its first `skip` parameters
/// are captured values, the next `n` the lambda's own.
pub open spec fn impl_names(
    pc: PoolClassV,
    name: Seq<char>,
    desc: Seq<char>,
    skip: nat,
    n: nat,
    base: int,
) -> Seq<Seq<char>> {
    match (own_method(pc, pc.methods.len(), name, desc), method_descriptor(desc)) {
        (Some(mi), Some(md)) => {
            let names = param_names(pc, pc.methods[mi].local_ranges, md.args, skip, n, base);
            if names.len() == n {
                names
            } else {
                made_up_names(n)
            }
        },
        _ => made_up_names(n),
    }
}

/// The made-up name of parameter `i`.
fn make_name(i: usize) -> (r: String)
    ensures
        r@ == made_up_name(i as nat),
{
    proof {
        reveal_strlit("x");
    }
    let mut s: String = "x".to_owned();
    append_decimal(&mut s, i as u128);
    assert(s@ =~= made_up_name(i as nat));
    s
}

/// Made-up names for `n` parameters.
fn make_names(n: usize) -> (r: Vec<String>)
    ensures
        strs(r@) == made_up_names(n as nat),
{
    let mut r: Vec<String> = Vec::new();
    let mut i: usize = 0;
    while i < n
        invariant
            i <= n,
            r.len() == i,
            forall|j: int| 0 <= j < i ==> (#[trigger] r@[j])@ == made_up_name(j as nat),
        decreases n - i,
    {
        r.push(make_name(i));
        i += 1;
    }
    assert(strs(r@) =~= made_up_names(n as nat));
    r
}

/// A name found among the first `k` ranges is the first of all.
proof fn lemma_slot_name(pc: PoolClassV, ranges: Seq<LocalRange>, k: int, slot: int)
    requires
        0 <= k <= ranges.len(),
        slot_name(pc, ranges.take(k), slot) is Some,
    ensures
        slot_name(pc, ranges, slot) == slot_name(pc, ranges.take(k), slot),
    decreases ranges.len() - k,
{
    if k < ranges.len() {
        assert(ranges.take(k + 1).drop_last() =~= ranges.take(k));
        lemma_slot_name(pc, ranges, k + 1, slot);
    } else {
        assert(ranges.take(k) =~= ranges);
    }
}

/// The name of the first local of slot `slot` that lives from the start of the code.
#[verifier::loop_isolation(false)]
fn find_name(pc: &PoolClass, ranges: &Vec<LocalRange>, slot: u128) -> (r: Option<String>)
    ensures
        opt_str(r) == slot_name(pc@, ranges@, slot as int),
{
    let mut i: usize = 0;
    while i < ranges.len()
        invariant
            i <= ranges.len(),
            slot_name(pc@, ranges@.take(i as int), slot as int) is None,
        decreases ranges.len() - i,
    {
        let e = ranges[i];
        assert(ranges@.take(i + 1).drop_last() =~= ranges@.take(i as int));
        if e.start_pc == 0 && e.index as u128 == slot {
            if let Some(n) = pc.utf8(e.name_index) {
                proof {
                    lemma_slot_name(pc@, ranges@, i + 1, slot as int);
                }
                return Some(n.to_owned());
            }
        }
        i += 1;
    }
    assert(ranges@.take(i as int) =~= ranges@);
    None
}

/// The names of at most `n` parameters of these types, the first `skip` left out.
#[verifier::loop_isolation(false)]
fn collect_names(
    pc: &PoolClass,
    ranges: &Vec<LocalRange>,
    types: &Vec<JType>,
    skip: usize,
    n: usize,
    base: u16,
) -> (r: Vec<String>)
    ensures
        strs(r@) == param_names(
            pc@,
            ranges@,
            java_types(types@),
            skip as nat,
            n as nat,
            base as int,
        ),
{
    let ghost all = java_types(types@);
    let mut names: Vec<String> = Vec::new();
    let mut slot: u128 = base as u128;
    let mut i: usize = 0;
    assert(all.take(0) =~= seq![]);
    assert(strs(names@) =~= seq![]);
    while i < types.len()
        invariant
            i <= types.len(),
            slot <= 65535 + 2 * i,
            slot == slot_after(all.take(i as int), base as int),
            strs(names@) == param_names(
                pc@,
                ranges@,
                all.take(i as int),
                skip as nat,
                n as nat,
                base as int,
            ),
        decreases types.len() - i,
    {
        assert(all.take(i + 1).drop_last() =~= all.take(i as int));
        assert(all.take(i + 1).last() == types@[i as int]@);
        let ghost front = strs(names@);
        assert(front.len() == names@.len());
        if i >= skip && names.len() < n {
            let name = match find_name(pc, ranges, slot) {
                Some(name) => name,
                None => make_name(names.len()),
            };
            names.push(name);
            assert(strs(names@) =~= front.push(name@));
        }
        slot = slot + types[i].slot_size() as u128;
        i += 1;
    }
    assert(all.take(i as int) =~= all);
    names
}

/// The parameter names of the method that a lambda calls.
fn impl_param_names_base(
    pc: &PoolClass,
    name: &str,
    desc: &str,
    skip: usize,
    n: usize,
    base: u16,
) -> (r: Vec<String>)
    ensures
        strs(r@) == impl_names(pc@, name@, desc@, skip as nat, n as nat, base as int),
{
    if let Some(mi) = pc.find_own_method(name, desc) {
        proof {
            lemma_own_method_bound(pc@, pc@.methods.len(), name@, desc@);
        }
        assert(pc@.methods[mi as int] == pc.methods@[mi as int]@);
        if let Some(md) = parse_method_descriptor(desc) {
            let names = collect_names(pc, &pc.methods[mi].local_ranges, &md.args, skip, n, base);
            assert(strs(names@).len() == names@.len());
            if names.len() == n {
                return names;
            }
        }
    }
    make_names(n)
}

// ---------------------------------------------------------------------
// Lambdas.

/// The kind of a method handle and the member that it refers to.
pub open spec fn handle_at(pc: PoolClassV, i: u16) -> Option<(u8, u16)> {
    match constant_at(pc, i) {
        ConstantV::MethodHandle(kind, member) => Some((kind, member)),
        _ => None,
    }
}

/// The kind of a method handle and the member that it refers to.
fn handle(pc: &PoolClass, i: u16) -> (r: Option<(u8, u16)>)
    ensures
        r == handle_at(pc@, i),
{
    match pc.constant(i) {
        Constant::MethodHandle(kind, member) => Some((*kind, *member)),
        _ => None,
    }
}

/// A lambda whose body is the method `impl_name`, or a reference to that method.
pub open spec fn lambda_of(
    pc: PoolClassV,
    sam_name: Seq<char>,
    sam_desc: MethodDescriptorV,
    args: Seq<ExprV>,
    impl_handle: u16,
    inst: Option<MethodDescriptorV>,
) -> Result<LambdaExprV, Seq<char>> {
    match handle_at(pc, impl_handle) {
        None => Err("lambda impl handle"@),
        Some((kind, member)) => match member_ref_at(pc, member) {
            None => Err("lambda impl ref"@),
            Some((owner, name, text)) => match method_descriptor(text) {
                None => Err("lambda impl desc"@),
                Some(desc) => {
                    let n = sam_desc.args.len();
                    let own = owner == pc.internal_name && has_prefix(name, "lambda$"@);
                    let on_this = args.len() > 0 && args[0] is This;
                    let base = LambdaExprV {
                        kind: LambdaKind::Lambda,
                        sam_name,
                        sam_desc,
                        inst_sam_desc: inst,
                        impl_owner: owner,
                        impl_name: name,
                        impl_desc: desc,
                        impl_is_static: kind == REF_INVOKE_STATIC,
                        captures: args,
                        param_names: seq![],
                        ref_receiver: None,
                        capture_snaps: seq![],
                    };
                    Ok(
                        if own && kind == REF_INVOKE_STATIC {
                            LambdaExprV {
                                param_names: impl_names(pc, name, text, args.len(), n, 0),
                                ..base
                            }
                        } else if own && kind == REF_INVOKE_VIRTUAL && on_this {
                            LambdaExprV {
                                captures: args.skip(1),
                                param_names: impl_names(
                                    pc,
                                    name,
                                    text,
                                    (args.len() - 1) as nat,
                                    n,
                                    1,
                                ),
                                ..base
                            }
                        } else {
                            LambdaExprV {
                                kind: LambdaKind::MethodRef,
                                param_names: made_up_names(n),
                                ref_receiver: if (kind == REF_INVOKE_VIRTUAL || kind
                                    == REF_INVOKE_INTERFACE) && args.len() == 0 {
                                    Some(owner)
                                } else {
                                    None
                                },
                                ..base
                            }
                        },
                    )
                },
            },
        },
    }
}

/// All but the first of a list of expressions.
#[verifier::loop_isolation(false)]
fn rest(args: &Vec<Expr>) -> (r: Vec<Expr>)
    requires
        args.len() > 0,
    ensures
        exprs(r@) == exprs(args@).skip(1),
{
    let ghost all = exprs(args@);
    let mut r: Vec<Expr> = Vec::new();
    let mut i: usize = 1;
    while i < args.len()
        invariant
            1 <= i <= args.len(),
            r.len() == i - 1,
            forall|j: int| 0 <= j < i - 1 ==> (#[trigger] r@[j])@ == all[j + 1],
        decreases args.len() - i,
    {
        assert(all[i as int] == args@[i as int]@);
        r.push(clone_expr(&args[i]));
        i += 1;
    }
    assert(exprs(r@) =~= all.skip(1));
    r
}

/// A lambda, or a reference to a method.
#[verifier::spinoff_prover]
pub fn build_lambda(
    pc: &PoolClass,
    sam_name: &str,
    sam_desc: &MethodDescriptor,
    dynamic_args: Vec<Expr>,
    impl_handle: u16,
    inst_sam_desc: Option<MethodDescriptor>,
) -> (r: Result<LambdaExpr, BuildError>)
    ensures
        match r {
            Ok(l) => lambda_of(
                pc@,
                sam_name@,
                sam_desc@,
                exprs(dynamic_args@),
                impl_handle,
                opt_desc(inst_sam_desc),
            ) == Ok::<LambdaExprV, Seq<char>>(l@),
            Err(x) => lambda_of(
                pc@,
                sam_name@,
                sam_desc@,
                exprs(dynamic_args@),
                impl_handle,
                opt_desc(inst_sam_desc),
            ) == Err::<LambdaExprV, Seq<char>>(x.0@),
        },
{
    let (kind, member) = match handle(pc, impl_handle) {
        Some(h) => h,
        None => {
            return Err(failure("lambda impl handle"));
        },
    };
    let (owner, name, text) = match pc.member_ref(member) {
        Some(m) => m,
        None => {
            return Err(failure("lambda impl ref"));
        },
    };
    let desc = match parse_method_descriptor(text) {
        Some(d) => d,
        None => {
            return Err(failure("lambda impl desc"));
        },
    };
    assert(java_types(sam_desc.args@).len() == sam_desc.args@.len());
    assert(exprs(dynamic_args@).len() == dynamic_args@.len());
    let n = sam_desc.args.len();
    let own = str_eq(owner, pc.internal_name.as_str()) && starts_with(name, "lambda$");
    let is_static = kind == REF_INVOKE_STATIC;
    let no_snaps: Vec<(u32, u32, String)> = Vec::new();
    assert(snaps(no_snaps@) =~= seq![]);
    if own && is_static {
        let param_names = impl_param_names_base(pc, name, text, dynamic_args.len(), n, 0);
        return Ok(
            LambdaExpr {
                kind: LambdaKind::Lambda,
                sam_name: sam_name.to_owned(),
                sam_desc: sam_desc.clone(),
                inst_sam_desc,
                impl_owner: owner.to_owned(),
                impl_name: name.to_owned(),
                impl_desc: desc,
                impl_is_static: true,
                captures: dynamic_args,
                param_names,
                ref_receiver: None,
                capture_snaps: no_snaps,
            },
        );
    }
    let on_this = if dynamic_args.len() > 0 {
        assert(exprs(dynamic_args@)[0] == dynamic_args@[0]@);
        matches!(dynamic_args[0], Expr::This)
    } else {
        false
    };
    if own && kind == REF_INVOKE_VIRTUAL && on_this {
        let captures = rest(&dynamic_args);
        assert(exprs(captures@).len() == captures@.len());
        let param_names = impl_param_names_base(pc, name, text, captures.len(), n, 1);
        return Ok(
            LambdaExpr {
                kind: LambdaKind::Lambda,
                sam_name: sam_name.to_owned(),
                sam_desc: sam_desc.clone(),
                inst_sam_desc,
                impl_owner: owner.to_owned(),
                impl_name: name.to_owned(),
                impl_desc: desc,
                impl_is_static: false,
                captures,
                param_names,
                ref_receiver: None,
                capture_snaps: no_snaps,
            },
        );
    }
    let receiver = if (kind == REF_INVOKE_VIRTUAL || kind == REF_INVOKE_INTERFACE)
        && dynamic_args.len() == 0 {
        Some(owner.to_owned())
    } else {
        None
    };
    Ok(
        LambdaExpr {
            kind: LambdaKind::MethodRef,
            sam_name: sam_name.to_owned(),
            sam_desc: sam_desc.clone(),
            inst_sam_desc,
            impl_owner: owner.to_owned(),
            impl_name: name.to_owned(),
            impl_desc: desc,
            impl_is_static: is_static,
            captures: dynamic_args,
            param_names: make_names(n),
            ref_receiver: receiver,
            capture_snaps: no_snaps,
        },
    )
}

// ---------------------------------------------------------------------
// String concatenation.

/// The string constants at these indices.
pub open spec fn strings_at(pc: PoolClassV, v: Seq<u16>) -> Seq<Seq<char>>
    decreases v.len(),
{
    if v.len() == 0 {
        seq![]
    } else {
        match string_at(pc, v.last()) {
            Some(s) => strings_at(pc, v.drop_last()).push(s),
            None => strings_at(pc, v.drop_last()),
        }
    }
}

/// One place for each of `n` arguments.
pub open spec fn plain_recipe(n: nat) -> Seq<char> {
    Seq::new(n, |i: int| '\u{1}')
}

/// The recipe of a concatenation: the first static argument, or a place for each
/// argument.
pub open spec fn recipe_of(
    pc: PoolClassV,
    name: Seq<char>,
    statics: Seq<u16>,
    n: nat,
) -> Seq<char> {
    if name == "makeConcatWithConstants"@ && statics.len() > 0 {
        match string_at(pc, statics[0]) {
            Some(s) => s,
            None => seq![],
        }
    } else {
        plain_recipe(n)
    }
}

/// The constants of a concatenation: the static arguments after the first.
pub open spec fn recipe_constants(pc: PoolClassV, statics: Seq<u16>) -> Seq<Seq<char>> {
    if statics.len() > 0 {
        strings_at(pc, statics.skip(1))
    } else {
        seq![]
    }
}

/// How many pieces are arguments.
pub open spec fn arg_count(parts: Seq<ConcatPartV>) -> nat
    decreases parts.len(),
{
    if parts.len() == 0 {
        0
    } else {
        arg_count(parts.drop_last()) + if parts.last() is Str {
            1nat
        } else {
            0nat
        }
    }
}

/// The pieces with boolean arguments written as booleans.
pub open spec fn bool_parts(parts: Seq<ConcatPartV>, types: Seq<JTypeV>) -> Seq<ConcatPartV>
    decreases parts.len(),
{
    if parts.len() == 0 {
        seq![]
    } else {
        let front = bool_parts(parts.drop_last(), types);
        let i = arg_count(parts.drop_last());
        match parts.last() {
            ConcatPartV::Str(e) => front.push(
                ConcatPartV::Str(
                    if i < types.len() && types[i as int] is Boolean {
                        booleanized(e)
                    } else {
                        e
                    },
                ),
            ),
            ConcatPartV::Const(s) => front.push(ConcatPartV::Const(s)),
        }
    }
}

/// One place for each of `n` arguments.
fn make_recipe(n: usize) -> (r: String)
    ensures
        r@ == plain_recipe(n as nat),
{
    proof {
        reveal_strlit("\u{1}");
    }
    let mut s: String = String::new();
    let mut i: usize = 0;
    while i < n
        invariant
            i <= n,
            s@ == plain_recipe(i as nat),
            "\u{1}"@ == seq!['\u{1}'],
        decreases n - i,
    {
        s.append("\u{1}");
        i += 1;
        assert(s@ =~= plain_recipe(i as nat));
    }
    s
}

/// The recipe of a concatenation.
fn find_recipe(pc: &PoolClass, name: &str, statics: &Vec<u16>, n: usize) -> (r: String)
    ensures
        r@ == recipe_of(pc@, name@, statics@, n as nat),
{
    if str_eq(name, "makeConcatWithConstants") && statics.len() > 0 {
        match pc.string_value(statics[0]) {
            Some(s) => s.to_owned(),
            None => {
                let s: String = String::new();
                assert(s@ =~= seq![]);
                s
            },
        }
    } else {
        make_recipe(n)
    }
}

/// The constants of a concatenation.
#[verifier::loop_isolation(false)]
fn find_constants(pc: &PoolClass, statics: &Vec<u16>) -> (r: Vec<String>)
    ensures
        strs(r@) == recipe_constants(pc@, statics@),
{
    let mut r: Vec<String> = Vec::new();
    assert(strs(r@) =~= seq![]);
    if statics.len() == 0 {
        return r;
    }
    let ghost tail = statics@.skip(1);
    let mut i: usize = 1;
    assert(tail.take(0) =~= seq![]);
    while i < statics.len()
        invariant
            1 <= i <= statics.len(),
            strs(r@) == strings_at(pc@, tail.take(i - 1)),
        decreases statics.len() - i,
    {
        let ghost before = strs(r@);
        assert(tail.take(i as int).drop_last() =~= tail.take(i - 1));
        assert(tail.take(i as int).last() == statics@[i as int]);
        if let Some(s) = pc.string_value(statics[i]) {
            r.push(s.to_owned());
            assert(strs(r@) =~= before.push(s@));
        }
        i += 1;
    }
    assert(tail.take(i - 1) =~= tail);
    r
}

/// Writes boolean arguments among the pieces as booleans.
#[verifier::loop_isolation(false)]
fn fix_bools(parts: &mut Vec<ConcatPart>, types: &Vec<JType>)
    ensures
        concat_parts(final(parts)@) == bool_parts(concat_parts(old(parts)@), java_types(types@)),
{
    let ghost all = concat_parts(parts@);
    let ghost ts = java_types(types@);
    assert(ts.len() == types@.len());
    let mut seen: usize = 0;
    let mut i: usize = 0;
    assert(all.take(0) =~= seq![]);
    assert(concat_parts(parts@.take(0)) =~= seq![]);
    while i < parts.len()
        invariant
            i <= parts.len(),
            seen <= i,
            parts.len() == old(parts).len(),
            seen == arg_count(all.take(i as int)),
            concat_parts(parts@.take(i as int)) == bool_parts(all.take(i as int), ts),
            forall|j: int| i <= j < parts.len() ==> #[trigger] parts@[j] == old(parts)@[j],
        decreases parts.len() - i,
    {
        let ghost before = concat_parts(parts@.take(i as int));
        assert(all.take(i + 1).drop_last() =~= all.take(i as int));
        assert(all.take(i + 1).last() == parts@[i as int]@);
        let is_bool = seen < types.len() && matches!(types[seen], JType::Boolean);
        assert(seen < types.len() ==> ts[seen as int] == types@[seen as int]@);
        let arg = fix_bool(&mut parts[i], is_bool);
        if arg {
            seen += 1;
        }
        i += 1;
        assert(concat_parts(parts@.take(i as int)) =~= before.push(parts@[i - 1]@));
    }
    assert(parts@.take(i as int) =~= parts@);
    assert(all.take(i as int) =~= all);
}

/// Writes a piece that is a boolean argument as a boolean; whether it is an argument.
fn fix_bool(p: &mut ConcatPart, is_bool: bool) -> (r: bool)
    ensures
        r == (old(p)@ is Str),
        final(p)@ == match old(p)@ {
            ConcatPartV::Str(e) => ConcatPartV::Str(
                if is_bool {
                    booleanized(e)
                } else {
                    e
                },
            ),
            ConcatPartV::Const(s) => ConcatPartV::Const(s),
        },
{
    match p {
        ConcatPart::Str(e) => {
            if is_bool {
                booleanize(e);
            }
            true
        },
        ConcatPart::Const(_) => false,
    }
}

// ---------------------------------------------------------------------
// Call sites.

/// A static argument that a call site prints.
pub open spec fn static_arg(pc: PoolClassV, i: u16) -> BsmArgV {
    match constant_at(pc, i) {
        ConstantV::Str(_) => match string_at(pc, i) {
            Some(s) => BsmArgV::Str(s),
            None => BsmArgV::Other,
        },
        ConstantV::Class(_) => match class_name_at(pc, i) {
            Some(s) => BsmArgV::Cls(s),
            None => BsmArgV::Other,
        },
        _ => BsmArgV::Other,
    }
}

/// The static arguments that a call site prints.
pub open spec fn static_args(pc: PoolClassV, v: Seq<u16>) -> Seq<BsmArgV> {
    Seq::new(v.len(), |i: int| static_arg(pc, v[i]))
}

/// The static arguments that a call site prints.
#[verifier::loop_isolation(false)]
fn find_static_args(pc: &PoolClass, v: &Vec<u16>) -> (r: Vec<BsmArg>)
    ensures
        bsm_args(r@) == static_args(pc@, v@),
{
    let mut r: Vec<BsmArg> = Vec::new();
    let mut i: usize = 0;
    while i < v.len()
        invariant
            i <= v.len(),
            r.len() == i,
            forall|j: int| 0 <= j < i ==> (#[trigger] r@[j])@ == static_arg(pc@, v@[j]),
        decreases v.len() - i,
    {
        let a = match pc.constant(v[i]) {
            Constant::Str(_) => match pc.string_value(v[i]) {
                Some(s) => BsmArg::Str(s.to_owned()),
                None => BsmArg::Other,
            },
            Constant::Class(_) => match pc.class_name(v[i]) {
                Some(s) => BsmArg::Cls(s.to_owned()),
                None => BsmArg::Other,
            },
            _ => BsmArg::Other,
        };
        r.push(a);
        i += 1;
    }
    assert(bsm_args(r@) =~= static_args(pc@, v@));
    r
}

/// A member as class, name and descriptor.
pub open spec fn opt_member(o: Option<(String, String, String)>) -> Option<
    (Seq<char>, Seq<char>, Seq<char>),
> {
    match o {
        Some((a, b, c)) => Some((a@, b@, c@)),
        None => None,
    }
}

/// What the `{:?}` format of `std` prints of an optional member.
pub uninterp spec fn debug_text(m: Option<(Seq<char>, Seq<char>, Seq<char>)>) -> Seq<char>;

/// Calls `format!` of `std` with `{:?}`; the text depends on the member alone.
#[verifier::external_body]
fn print_member(m: &Option<(String, String, String)>) -> (r: String)
    ensures
        r@ == debug_text(opt_member(*m)),
{
    format!("{:?}", m)
}

/// The descriptor in a method type constant.
pub open spec fn method_type_at(pc: PoolClassV, i: u16) -> Option<MethodDescriptorV> {
    match constant_at(pc, i) {
        ConstantV::MethodType(d) => match utf8_at(pc, d) {
            Some(text) => method_descriptor(text),
            None => None,
        },
        _ => None,
    }
}

/// The descriptor in a method type constant.
fn method_type(pc: &PoolClass, i: u16) -> (r: Option<MethodDescriptor>)
    ensures
        opt_desc(r) == method_type_at(pc@, i),
{
    match pc.constant(i) {
        Constant::MethodType(d) => match pc.utf8(*d) {
            Some(text) => parse_method_descriptor(text),
            None => None,
        },
        _ => None,
    }
}

/// A bootstrap method that makes lambdas.
pub open spec fn makes_lambda(
    m: Option<(Seq<char>, Seq<char>, Seq<char>)>,
    statics: Seq<u16>,
) -> bool {
    m matches Some((cls, name, _)) && ((name == "metafactory"@ || name == "altMetafactory"@) && cls
        == "java/lang/invoke/LambdaMetafactory"@ && statics.len() >= 3)
}

/// A bootstrap method that joins strings.
pub open spec fn makes_concat(m: Option<(Seq<char>, Seq<char>, Seq<char>)>) -> bool {
    m matches Some((cls, name, _)) && ((name == "makeConcatWithConstants"@ || name == "makeConcat"@)
        && cls == "java/lang/invoke/StringConcatFactory"@)
}

/// The expression that a call site stands for: a lambda, a concatenation, or an opaque
/// call.
pub open spec fn site_value(
    pc: PoolClassV,
    name: Seq<char>,
    desc: MethodDescriptorV,
    args: Seq<ExprV>,
    target: Option<(Seq<char>, Seq<char>, Seq<char>)>,
    statics: Seq<u16>,
) -> Result<ExprV, Seq<char>> {
    if makes_lambda(target, statics) {
        let sam = match method_type_at(pc, statics[0]) {
            Some(d) => d,
            None => desc,
        };
        match lambda_of(pc, name, sam, args, statics[1], method_type_at(pc, statics[2])) {
            Ok(l) => Ok(ExprV::Lambda(Box::new(l))),
            Err(x) => Err(x),
        }
    } else if makes_concat(target) {
        let bsm_name = target.unwrap().1;
        let recipe = recipe_of(pc, bsm_name, statics, args.len());
        let parts = recipe_parts(recipe, args, recipe_constants(pc, statics));
        Ok(ExprV::StringConcat(bool_parts(parts, desc.args)))
    } else {
        Ok(
            ExprV::Invokedynamic {
                name,
                desc,
                args,
                bsm_text: debug_text(target),
                bsm_static_args: static_args(pc, statics),
            },
        )
    }
}

/// The call site at constant `idx`: its name, its descriptor and its bootstrap method.
pub open spec fn site_at(pc: PoolClassV, idx: u16) -> Result<
    (Seq<char>, MethodDescriptorV, u16),
    Seq<char>,
> {
    match constant_at(pc, idx) {
        ConstantV::InvokeDynamic(bsm, pair) => match name_and_type_at(pc, pair) {
            Some((name, text)) => match method_descriptor(text) {
                Some(desc) => Ok((name, desc, bsm)),
                None => Err("indy desc"@),
            },
            None => Err("indy nat"@),
        },
        _ => Err("indy cp"@),
    }
}

/// The member that a bootstrap method calls.
pub open spec fn bootstrap_target(pc: PoolClassV, bsm: u16) -> Result<
    Option<(Seq<char>, Seq<char>, Seq<char>)>,
    Seq<char>,
> {
    if bsm >= pc.bootstrap_methods.len() {
        Err("bsm index out of range"@)
    } else {
        match handle_at(pc, pc.bootstrap_methods[bsm as int].method_ref) {
            Some((_, member)) => Ok(member_ref_at(pc, member)),
            None => Err("bsm handle"@),
        }
    }
}

/// A dynamic call at constant `idx`.
pub open spec fn dynamically_invoked(
    st: SimV,
    pc: PoolClassV,
    idx: u16,
) -> Result<SimV, Seq<char>> {
    match site_at(pc, idx) {
        Err(x) => Err(x),
        Ok((name, desc, bsm)) => match popped_args(st, desc.args.len()) {
            Err(x) => Err(x),
            Ok((args, st1)) => match bootstrap_target(pc, bsm) {
                Err(x) => Err(x),
                Ok(target) => match site_value(
                    pc,
                    name,
                    desc,
                    args,
                    target,
                    pc.bootstrap_methods[bsm as int].arguments,
                ) {
                    Err(x) => Err(x),
                    Ok(e) => Ok(produced(st1, e, desc.ret)),
                },
            },
        },
    }
}

/// An opaque dynamic call that prints `bsm_text`.
pub fn opaque_call(
    pc: &PoolClass,
    name: &str,
    desc: MethodDescriptor,
    args: Vec<Expr>,
    statics: &Vec<u16>,
    bsm_text: String,
) -> (r: Expr)
    ensures
        r@ == (ExprV::Invokedynamic {
            name: name@,
            desc: desc@,
            args: exprs(args@),
            bsm_text: bsm_text@,
            bsm_static_args: static_args(pc@, statics@),
        }),
{
    Expr::Invokedynamic {
        name: name.to_owned(),
        desc,
        args,
        bsm_text,
        bsm_static_args: find_static_args(pc, statics),
    }
}

/// Whether a member is the class and one of two names.
fn is_one_of(m: &Option<(String, String, String)>, cls: &str, a: &str, b: &str) -> (r: bool)
    ensures
        r == (opt_member(*m) matches Some((c, n, _)) && ((n == a@ || n == b@) && c == cls@)),
{
    match m {
        Some((c, n, _)) => (str_eq(n.as_str(), a) || str_eq(n.as_str(), b)) && str_eq(
            c.as_str(),
            cls,
        ),
        None => false,
    }
}

/// The expression that a call site stands for.
#[verifier::spinoff_prover]
fn build_site(
    pc: &PoolClass,
    name: &str,
    desc: &MethodDescriptor,
    args: Vec<Expr>,
    target: &Option<(String, String, String)>,
    statics: &Vec<u16>,
) -> (r: Result<Expr, BuildError>)
    ensures
        match r {
            Ok(e) => site_value(pc@, name@, desc@, exprs(args@), opt_member(*target), statics@)
                == Ok::<ExprV, Seq<char>>(e@),
            Err(x) => site_value(pc@, name@, desc@, exprs(args@), opt_member(*target), statics@)
                == Err::<ExprV, Seq<char>>(x.0@),
        },
{
    assert(exprs(args@).len() == args@.len());
    if is_one_of(target, "java/lang/invoke/LambdaMetafactory", "metafactory", "altMetafactory")
        && statics.len() >= 3 {
        let sam = match method_type(pc, statics[0]) {
            Some(d) => d,
            None => desc.clone(),
        };
        let inst = method_type(pc, statics[2]);
        return match build_lambda(pc, name, &sam, args, statics[1], inst) {
            Ok(l) => Ok(Expr::Lambda(Box::new(l))),
            Err(x) => Err(x),
        };
    }
    if is_one_of(
        target,
        "java/lang/invoke/StringConcatFactory",
        "makeConcatWithConstants",
        "makeConcat",
    ) {
        if let Some((_, bsm_name, _)) = target {
            let recipe = find_recipe(pc, bsm_name.as_str(), statics, args.len());
            let constants = find_constants(pc, statics);
            let mut parts = parse_concat_recipe(recipe.as_str(), args, &constants);
            fix_bools(&mut parts, &desc.args);
            return Ok(Expr::StringConcat(parts));
        }
    }
    let text = print_member(target);
    Ok(opaque_call(pc, name, desc.clone(), args, statics, text))
}

/// A dynamic call at constant `idx`.
#[verifier::spinoff_prover]
pub fn invoke_dynamic(st: &mut Sim, pc: &PoolClass, idx: u16) -> (r: Result<(), BuildError>)
    ensures
        step_outcome(r, old(st)@, final(st)@, dynamically_invoked(old(st)@, pc@, idx)),
{
    let (bsm, pair) = match pc.constant(idx) {
        Constant::InvokeDynamic(bsm, pair) => (*bsm, *pair),
        _ => {
            return Err(failure("indy cp"));
        },
    };
    let (name, text) = match pc.name_and_type(pair) {
        Some(p) => p,
        None => {
            return Err(failure("indy nat"));
        },
    };
    let desc = match parse_method_descriptor(text) {
        Some(d) => d,
        None => {
            return Err(failure("indy desc"));
        },
    };
    assert(java_types(desc.args@).len() == desc.args@.len());
    let args = match st.pop_args(desc.args.len()) {
        Ok(a) => a,
        Err(x) => {
            return Err(x);
        },
    };
    if bsm as usize >= pc.bootstrap_methods.len() {
        return Err(failure("bsm index out of range"));
    }
    let b = &pc.bootstrap_methods[bsm as usize];
    assert(pc@.bootstrap_methods[bsm as int] == b@);
    let member = match handle(pc, b.method_ref) {
        Some((_, member)) => member,
        None => {
            return Err(failure("bsm handle"));
        },
    };
    let target = match pc.member_ref(member) {
        Some((c, n, d)) => Some((c.to_owned(), n.to_owned(), d.to_owned())),
        None => None,
    };
    match build_site(pc, name, &desc, args, &target, &b.arguments) {
        Ok(e) => {
            produce(st, e, &desc.ret);
            Ok(())
        },
        Err(x) => Err(x),
    }
}

} // verus!
