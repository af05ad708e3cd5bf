//! Generic types: type variables, wildcards and instantiation.
use crate::classes::{
    attributes, member_flag, own_method, pool_get, signature_text, utf8_at, ClassPool, ClassPoolV,
    Member, MemberV, PoolClass, PoolClassV, ACC_STATIC,
};
use crate::expr::{type_of, Expr, ExprV};
use crate::signatures::{
    desc_text, opt_generic, parse_class_signature, parse_field_signature, parse_method_signature,
    parsed_class_signature, parsed_field_signature, parsed_method_signature, ClassSignature,
    ClassSignatureV, MethodSignature, MethodSignatureV,
};
use crate::types::{
    clone_generic, clone_generics, erase, generics, generics_eq, internal_name, opt_str, opt_type,
    sig_parts, str_eq, strs, type_params, ClassSig, ClassSigPart, ClassSigPartV, ClassSigV, GType,
    GTypeV, JType, JTypeV, TParam, TParamV, TypeRef, TypeRefV, WildcardBound, WildcardBoundV,
};
use vstd::prelude::*;

verus! {

/// A type variable occurs in `g`.
pub open spec fn mentions_typevar(g: GTypeV) -> bool
    decreases g,
{
    match g {
        GTypeV::Primitive(_) => false,
        GTypeV::TypeVar(_) => true,
        GTypeV::Array(t) => mentions_typevar(*t),
        GTypeV::Class(cs) => mentions_typevar_parts(cs.parts),
        GTypeV::Wildcard(w) => match w {
            WildcardBoundV::Any => false,
            WildcardBoundV::Extends(t) => mentions_typevar(*t),
            WildcardBoundV::Super(t) => mentions_typevar(*t),
        },
    }
}

/// [`mentions_typevar`] in the arguments of some part.
pub open spec fn mentions_typevar_parts(v: Seq<ClassSigPartV>) -> bool
    decreases v,
{
    exists|i: int| 0 <= i < v.len() && mentions_typevar_any((#[trigger] v[i]).args)
}

/// [`mentions_typevar`] of some type.
pub open spec fn mentions_typevar_any(v: Seq<GTypeV>) -> bool
    decreases v,
{
    exists|i: int| 0 <= i < v.len() && mentions_typevar(#[trigger] v[i])
}

/// Whether a type variable occurs in `g`.
pub fn contains_typevar(g: &GType) -> (r: bool)
    ensures
        r == mentions_typevar(g@),
    decreases g,
{
    proof {
        reveal_with_fuel(GType::view, 2);
        reveal_with_fuel(WildcardBound::view, 2);
        reveal_with_fuel(ClassSig::view, 2);
    }
    match g {
        GType::Primitive(_) => false,
        GType::TypeVar(_) => true,
        GType::Array(t) => contains_typevar(t),
        GType::Class(cs) => contains_typevar_parts(&cs.parts),
        GType::Wildcard(w) => match w {
            WildcardBound::Any => false,
            WildcardBound::Extends(t) => contains_typevar(t),
            WildcardBound::Super(t) => contains_typevar(t),
        },
    }
}

/// `contains_typevar` over the arguments of parts.
#[verifier::loop_isolation(false)]
pub fn contains_typevar_parts(v: &Vec<ClassSigPart>) -> (r: bool)
    ensures
        r == mentions_typevar_parts(sig_parts(v@)),
    decreases v,
{
    let mut i: usize = 0;
    while i < v.len()
        invariant
            i <= v.len(),
            forall|j: int| 0 <= j < i ==> !mentions_typevar_any((#[trigger] sig_parts(v@)[j]).args),
        decreases v.len() - i,
    {
        assert(decreases_to!(v => v@[i as int]));
        assert(sig_parts(v@)[i as int] == v@[i as int]@);
        if contains_typevar_any(&v[i].args) {
            return true;
        }
        i += 1;
    }
    false
}

/// `contains_typevar` over types.
#[verifier::loop_isolation(false)]
pub fn contains_typevar_any(v: &Vec<GType>) -> (r: bool)
    ensures
        r == mentions_typevar_any(generics(v@)),
    decreases v,
{
    let mut i: usize = 0;
    while i < v.len()
        invariant
            i <= v.len(),
            forall|j: int| 0 <= j < i ==> !mentions_typevar(#[trigger] generics(v@)[j]),
        decreases v.len() - i,
    {
        assert(decreases_to!(v => v@[i as int]));
        assert(generics(v@)[i as int] == v@[i as int]@);
        if contains_typevar(&v[i]) {
            return true;
        }
        i += 1;
    }
    false
}

/// A wildcard stands right inside a wildcard somewhere in `g`, which Java does not
/// allow.
pub open spec fn nests_wildcard(g: GTypeV) -> bool
    decreases g,
{
    match g {
        GTypeV::Primitive(_) => false,
        GTypeV::TypeVar(_) => false,
        GTypeV::Array(t) => nests_wildcard(*t),
        GTypeV::Class(cs) => nests_wildcard_parts(cs.parts),
        GTypeV::Wildcard(w) => match w {
            WildcardBoundV::Any => false,
            WildcardBoundV::Extends(t) => (*t) is Wildcard || nests_wildcard(*t),
            WildcardBoundV::Super(t) => (*t) is Wildcard || nests_wildcard(*t),
        },
    }
}

/// [`nests_wildcard`] in the arguments of some part.
pub open spec fn nests_wildcard_parts(v: Seq<ClassSigPartV>) -> bool
    decreases v,
{
    exists|i: int| 0 <= i < v.len() && nests_wildcard_any((#[trigger] v[i]).args)
}

/// [`nests_wildcard`] of some type.
pub open spec fn nests_wildcard_any(v: Seq<GTypeV>) -> bool
    decreases v,
{
    exists|i: int| 0 <= i < v.len() && nests_wildcard(#[trigger] v[i])
}

/// Whether a wildcard stands right inside a wildcard somewhere in `g`.
pub fn has_nested_wildcard(g: &GType) -> (r: bool)
    ensures
        r == nests_wildcard(g@),
    decreases g,
{
    proof {
        reveal_with_fuel(GType::view, 2);
        reveal_with_fuel(WildcardBound::view, 2);
        reveal_with_fuel(ClassSig::view, 2);
    }
    match g {
        GType::Primitive(_) => false,
        GType::TypeVar(_) => false,
        GType::Array(t) => has_nested_wildcard(t),
        GType::Class(cs) => has_nested_wildcard_parts(&cs.parts),
        GType::Wildcard(w) => match w {
            WildcardBound::Any => false,
            WildcardBound::Extends(t) => matches!(**t, GType::Wildcard(_))
                || has_nested_wildcard(t),
            WildcardBound::Super(t) => matches!(**t, GType::Wildcard(_)) || has_nested_wildcard(t),
        },
    }
}

/// `has_nested_wildcard` over the arguments of parts.
#[verifier::loop_isolation(false)]
pub fn has_nested_wildcard_parts(v: &Vec<ClassSigPart>) -> (r: bool)
    ensures
        r == nests_wildcard_parts(sig_parts(v@)),
    decreases v,
{
    let mut i: usize = 0;
    while i < v.len()
        invariant
            i <= v.len(),
            forall|j: int| 0 <= j < i ==> !nests_wildcard_any((#[trigger] sig_parts(v@)[j]).args),
        decreases v.len() - i,
    {
        assert(decreases_to!(v => v@[i as int]));
        assert(sig_parts(v@)[i as int] == v@[i as int]@);
        if has_nested_wildcard_any(&v[i].args) {
            return true;
        }
        i += 1;
    }
    false
}

/// `has_nested_wildcard` over types.
#[verifier::loop_isolation(false)]
pub fn has_nested_wildcard_any(v: &Vec<GType>) -> (r: bool)
    ensures
        r == nests_wildcard_any(generics(v@)),
    decreases v,
{
    let mut i: usize = 0;
    while i < v.len()
        invariant
            i <= v.len(),
            forall|j: int| 0 <= j < i ==> !nests_wildcard(#[trigger] generics(v@)[j]),
        decreases v.len() - i,
    {
        assert(decreases_to!(v => v@[i as int]));
        assert(generics(v@)[i as int] == v@[i as int]@);
        if has_nested_wildcard(&v[i]) {
            return true;
        }
        i += 1;
    }
    false
}

/// A wildcard occurs in `g`.
pub open spec fn mentions_wildcard(g: GTypeV) -> bool
    decreases g,
{
    match g {
        GTypeV::Primitive(_) => false,
        GTypeV::TypeVar(_) => false,
        GTypeV::Array(t) => mentions_wildcard(*t),
        GTypeV::Class(cs) => mentions_wildcard_parts(cs.parts),
        GTypeV::Wildcard(_) => true,
    }
}

/// [`mentions_wildcard`] in the arguments of some part.
pub open spec fn mentions_wildcard_parts(v: Seq<ClassSigPartV>) -> bool
    decreases v,
{
    exists|i: int| 0 <= i < v.len() && mentions_wildcard_any((#[trigger] v[i]).args)
}

/// [`mentions_wildcard`] of some type.
pub open spec fn mentions_wildcard_any(v: Seq<GTypeV>) -> bool
    decreases v,
{
    exists|i: int| 0 <= i < v.len() && mentions_wildcard(#[trigger] v[i])
}

/// Whether a wildcard occurs in `g`.
pub fn g_has_wildcard(g: &GType) -> (r: bool)
    ensures
        r == mentions_wildcard(g@),
    decreases g,
{
    proof {
        reveal_with_fuel(GType::view, 2);
        reveal_with_fuel(WildcardBound::view, 2);
        reveal_with_fuel(ClassSig::view, 2);
    }
    match g {
        GType::Primitive(_) => false,
        GType::TypeVar(_) => false,
        GType::Array(t) => g_has_wildcard(t),
        GType::Class(cs) => g_has_wildcard_parts(&cs.parts),
        GType::Wildcard(_) => true,
    }
}

/// `g_has_wildcard` over the arguments of parts.
#[verifier::loop_isolation(false)]
pub fn g_has_wildcard_parts(v: &Vec<ClassSigPart>) -> (r: bool)
    ensures
        r == mentions_wildcard_parts(sig_parts(v@)),
    decreases v,
{
    let mut i: usize = 0;
    while i < v.len()
        invariant
            i <= v.len(),
            forall|j: int|
                0 <= j < i ==> !mentions_wildcard_any((#[trigger] sig_parts(v@)[j]).args),
        decreases v.len() - i,
    {
        assert(decreases_to!(v => v@[i as int]));
        assert(sig_parts(v@)[i as int] == v@[i as int]@);
        if g_has_wildcard_any(&v[i].args) {
            return true;
        }
        i += 1;
    }
    false
}

/// `g_has_wildcard` over types.
#[verifier::loop_isolation(false)]
pub fn g_has_wildcard_any(v: &Vec<GType>) -> (r: bool)
    ensures
        r == mentions_wildcard_any(generics(v@)),
    decreases v,
{
    let mut i: usize = 0;
    while i < v.len()
        invariant
            i <= v.len(),
            forall|j: int| 0 <= j < i ==> !mentions_wildcard(#[trigger] generics(v@)[j]),
        decreases v.len() - i,
    {
        assert(decreases_to!(v => v@[i as int]));
        assert(generics(v@)[i as int] == v@[i as int]@);
        if g_has_wildcard(&v[i]) {
            return true;
        }
        i += 1;
    }
    false
}

// ---------------------------------------------------------------------
// Substitution.

/// Index of the first type parameter of that name.
pub open spec fn param_index(params: Seq<TParamV>, name: Seq<char>) -> Option<int>
    decreases params.len(),
{
    if params.len() == 0 {
        None
    } else {
        match param_index(params.drop_last(), name) {
            Some(i) => Some(i),
            None => if params.last().name == name {
                Some(params.len() - 1)
            } else {
                None
            },
        }
    }
}

/// The argument for the type variable `name`; the variable itself where there is
/// none.
pub open spec fn arg_for(name: Seq<char>, params: Seq<TParamV>, args: Seq<GTypeV>) -> GTypeV {
    match param_index(params, name) {
        Some(i) => if i < args.len() {
            args[i]
        } else {
            GTypeV::TypeVar(name)
        },
        None => GTypeV::TypeVar(name),
    }
}

/// `g` with type parameters replaced by arguments.
pub open spec fn substituted(g: GTypeV, params: Seq<TParamV>, args: Seq<GTypeV>) -> GTypeV
    decreases g,
{
    match g {
        GTypeV::Primitive(_) => g,
        GTypeV::TypeVar(n) => arg_for(n, params, args),
        GTypeV::Array(t) => GTypeV::Array(Box::new(substituted(*t, params, args))),
        GTypeV::Class(cs) => GTypeV::Class(
            ClassSigV { package: cs.package, parts: substituted_parts(cs.parts, params, args) },
        ),
        GTypeV::Wildcard(w) => GTypeV::Wildcard(
            match w {
                WildcardBoundV::Any => WildcardBoundV::Any,
                WildcardBoundV::Extends(t) => WildcardBoundV::Extends(
                    Box::new(substituted(*t, params, args)),
                ),
                WildcardBoundV::Super(t) => WildcardBoundV::Super(
                    Box::new(substituted(*t, params, args)),
                ),
            },
        ),
    }
}

/// [`substituted`] in the arguments of parts.
pub open spec fn substituted_parts(
    v: Seq<ClassSigPartV>,
    params: Seq<TParamV>,
    args: Seq<GTypeV>,
) -> Seq<ClassSigPartV>
    decreases v,
{
    Seq::new(
        v.len(),
        |i: int|
            if 0 <= i < v.len() {
                ClassSigPartV { name: v[i].name, args: substituted_list(v[i].args, params, args) }
            } else {
                arbitrary()
            },
    )
}

/// [`substituted`] over a list.
pub open spec fn substituted_list(
    v: Seq<GTypeV>,
    params: Seq<TParamV>,
    args: Seq<GTypeV>,
) -> Seq<GTypeV>
    decreases v,
{
    Seq::new(
        v.len(),
        |i: int|
            if 0 <= i < v.len() {
                substituted(v[i], params, args)
            } else {
                arbitrary()
            },
    )
}

/// A first parameter found among the first `n` is the first of all.
proof fn lemma_param_index(params: Seq<TParamV>, n: int, name: Seq<char>)
    requires
        0 <= n <= params.len(),
        param_index(params.take(n), name) is Some,
    ensures
        param_index(params, name) == param_index(params.take(n), name),
    decreases params.len() - n,
{
    if n < params.len() {
        assert(params.take(n + 1).drop_last() =~= params.take(n));
        lemma_param_index(params, n + 1, name);
    } else {
        assert(params.take(n) =~= params);
    }
}

/// The argument for a type variable.
#[verifier::loop_isolation(false)]
fn argument(name: &String, params: &Vec<TParam>, args: &Vec<GType>) -> (r: GType)
    ensures
        r@ == arg_for(name@, type_params(params@), generics(args@)),
{
    let ghost all = type_params(params@);
    assert(generics(args@).len() == args@.len());
    let mut i: usize = 0;
    while i < params.len()
        invariant
            i <= params.len(),
            param_index(all.take(i as int), name@) is None,
        decreases params.len() - i,
    {
        assert(all.take(i + 1).drop_last() =~= all.take(i as int));
        assert(all.take(i + 1).last() == params@[i as int]@);
        if str_eq(params[i].name.as_str(), name.as_str()) {
            proof {
                lemma_param_index(all, i + 1, name@);
            }
            if i < args.len() {
                assert(generics(args@)[i as int] == args@[i as int]@);
                return clone_generic(&args[i]);
            }
            return GType::TypeVar(name.clone());
        }
        i += 1;
    }
    assert(all.take(i as int) =~= all);
    GType::TypeVar(name.clone())
}

/// Replaces type parameters by arguments.
pub fn subst_typevars(t: &GType, params: &Vec<TParam>, args: &Vec<GType>) -> (r: GType)
    ensures
        r@ == substituted(t@, type_params(params@), generics(args@)),
    decreases t,
{
    proof {
        reveal_with_fuel(GType::view, 2);
        reveal_with_fuel(WildcardBound::view, 2);
        reveal_with_fuel(ClassSig::view, 2);
    }
    match t {
        GType::Primitive(c) => GType::Primitive(*c),
        GType::TypeVar(n) => argument(n, params, args),
        GType::Array(e) => GType::Array(Box::new(subst_typevars(e, params, args))),
        GType::Class(cs) => GType::Class(
            ClassSig {
                package: cs.package.clone(),
                parts: subst_typevars_parts(&cs.parts, params, args),
            },
        ),
        GType::Wildcard(w) => GType::Wildcard(
            match w {
                WildcardBound::Any => WildcardBound::Any,
                WildcardBound::Extends(e) => WildcardBound::Extends(
                    Box::new(subst_typevars(e, params, args)),
                ),
                WildcardBound::Super(e) => WildcardBound::Super(
                    Box::new(subst_typevars(e, params, args)),
                ),
            },
        ),
    }
}

/// `subst_typevars` in the arguments of parts.
#[verifier::loop_isolation(false)]
fn subst_typevars_parts(v: &Vec<ClassSigPart>, params: &Vec<TParam>, args: &Vec<GType>) -> (r: Vec<
    ClassSigPart,
>)
    ensures
        sig_parts(r@) == substituted_parts(
            sig_parts(v@),
            type_params(params@),
            generics(args@),
        ),
    decreases v,
{
    let ghost ps = type_params(params@);
    let ghost gs = generics(args@);
    let mut r: Vec<ClassSigPart> = Vec::new();
    let mut i: usize = 0;
    while i < v.len()
        invariant
            i <= v.len(),
            r.len() == i,
            forall|j: int| 0 <= j < i ==> (#[trigger] r@[j])@ == (ClassSigPartV {
                name: v@[j]@.name,
                args: substituted_list(v@[j]@.args, ps, gs),
            }),
        decreases v.len() - i,
    {
        assert(decreases_to!(v => v@[i as int]));
        let part = ClassSigPart {
            name: v[i].name.clone(),
            args: subst_typevars_list(&v[i].args, params, args),
        };
        r.push(part);
        i += 1;
    }
    assert(sig_parts(r@) =~= substituted_parts(sig_parts(v@), ps, gs));
    r
}

/// `subst_typevars` over a list.
#[verifier::loop_isolation(false)]
fn subst_typevars_list(v: &Vec<GType>, params: &Vec<TParam>, args: &Vec<GType>) -> (r: Vec<GType>)
    ensures
        generics(r@) == substituted_list(generics(v@), type_params(params@), generics(args@)),
    decreases v,
{
    let ghost ps = type_params(params@);
    let ghost gs = generics(args@);
    let mut r: Vec<GType> = Vec::new();
    let mut i: usize = 0;
    while i < v.len()
        invariant
            i <= v.len(),
            r.len() == i,
            forall|j: int| 0 <= j < i ==> (#[trigger] r@[j])@ == substituted(v@[j]@, ps, gs),
        decreases v.len() - i,
    {
        assert(decreases_to!(v => v@[i as int]));
        r.push(subst_typevars(&v[i], params, args));
        i += 1;
    }
    assert(generics(r@) =~= substituted_list(generics(v@), ps, gs));
    r
}

/// Internal name of a class type.
pub fn classsig_internal(cs: &ClassSig) -> (r: String)
    ensures
        r@ == internal_name(cs@),
{
    cs.internal_name()
}

/// A type without type variables is not changed by substitution.
pub proof fn law_closed_type_keeps(g: GTypeV, params: Seq<TParamV>, args: Seq<GTypeV>)
    requires
        !mentions_typevar(g),
    ensures
        substituted(g, params, args) == g,
    decreases g,
{
    match g {
        GTypeV::Array(t) => {
            law_closed_type_keeps(*t, params, args);
        },
        GTypeV::Class(cs) => {
            assert(!mentions_typevar_parts(cs.parts));
            assert forall|i: int| 0 <= i < cs.parts.len() implies substituted_list(
                #[trigger] cs.parts[i].args,
                params,
                args,
            ) == cs.parts[i].args by {
                let l = cs.parts[i].args;
                assert(!mentions_typevar_any(l));
                assert forall|j: int| 0 <= j < l.len() implies substituted(
                    #[trigger] l[j],
                    params,
                    args,
                ) == l[j] by {
                    assert(!mentions_typevar(l[j]));
                    law_closed_type_keeps(l[j], params, args);
                }
                assert(substituted_list(l, params, args) =~= l);
            }
            assert(substituted_parts(cs.parts, params, args) =~= cs.parts);
        },
        GTypeV::Wildcard(w) => {
            match w {
                WildcardBoundV::Any => {},
                WildcardBoundV::Extends(t) => {
                    law_closed_type_keeps(*t, params, args);
                },
                WildcardBoundV::Super(t) => {
                    law_closed_type_keeps(*t, params, args);
                },
            }
        },
        _ => {},
    }
}

// ---------------------------------------------------------------------
// Types of fields and calls.

/// The class signature of `pc`.
pub open spec fn class_signature(pc: PoolClassV) -> Option<ClassSignatureV> {
    match signature_text(pc, pc.attributes) {
        Some(text) => parsed_class_signature(text),
        None => None,
    }
}

/// The type parameters of `pc`; none without a signature.
pub open spec fn class_params(pc: PoolClassV) -> Seq<TParamV> {
    match class_signature(pc) {
        Some(s) => s.params,
        None => seq![],
    }
}

/// The class signature of `pc`.
fn signature_of(pc: &PoolClass) -> (r: Option<ClassSignature>)
    ensures
        match r {
            Some(s) => class_signature(pc@) == Some(s@),
            None => class_signature(pc@) is None,
        },
{
    match pc.signature_text(&pc.attributes) {
        Some(text) => parse_class_signature(text),
        None => None,
    }
}

/// The type variables of type parameters.
pub open spec fn own_variables(params: Seq<TParamV>) -> Seq<GTypeV> {
    Seq::new(params.len(), |i: int| GTypeV::TypeVar(params[i].name))
}

/// The type variables of type parameters.
#[verifier::loop_isolation(false)]
fn variables(params: &Vec<TParam>) -> (r: Vec<GType>)
    ensures
        generics(r@) == own_variables(type_params(params@)),
{
    let mut r: Vec<GType> = Vec::new();
    let mut i: usize = 0;
    while i < params.len()
        invariant
            i <= params.len(),
            r.len() == i,
            forall|j: int| 0 <= j < i ==> (#[trigger] r@[j])@ == GTypeV::TypeVar(params@[j].name@),
        decreases params.len() - i,
    {
        r.push(GType::TypeVar(params[i].name.clone()));
        i += 1;
    }
    assert(generics(r@) =~= own_variables(type_params(params@)));
    r
}

/// What a type is instantiated through: a class and its arguments.
pub open spec fn instance(t: TypeRefV) -> Option<(Seq<char>, Seq<GTypeV>)> {
    match t {
        TypeRefV::G(g) => match g {
            GTypeV::Class(cs) => if cs.parts.len() > 0 {
                Some((internal_name(cs), cs.parts.last().args))
            } else {
                None
            },
            _ => erased_instance(t),
        },
        TypeRefV::J(_) => erased_instance(t),
    }
}

/// The class that a type erases to, without arguments.
pub open spec fn erased_instance(t: TypeRefV) -> Option<(Seq<char>, Seq<GTypeV>)> {
    match erase(t) {
        JTypeV::Object(n) => Some((n, seq![])),
        _ => None,
    }
}

/// Class and arguments through which a field of `owner` is looked up.
pub open spec fn owner_instance(owner: Option<ExprV>, cls: Seq<char>, pc: PoolClassV) -> Option<
    (Seq<char>, Seq<GTypeV>),
> {
    match owner {
        Some(o) => if o is This {
            match class_signature(pc) {
                Some(s) => Some((pc.internal_name, own_variables(s.params))),
                None => None,
            }
        } else {
            instance(type_of(o))
        },
        None => Some((cls, seq![])),
    }
}

/// Model of a class with its arguments.
pub open spec fn opt_instance(o: Option<(String, Vec<GType>)>) -> Option<(Seq<char>, Seq<GTypeV>)> {
    match o {
        Some((n, a)) => Some((n@, generics(a@))),
        None => None,
    }
}

/// The class that a type erases to, without arguments.
fn erased_start(t: &TypeRef) -> (r: Option<(String, Vec<GType>)>)
    ensures
        opt_instance(r) == erased_instance(t@),
{
    match t.erased() {
        JType::Object(n) => {
            let none: Vec<GType> = Vec::new();
            assert(generics(none@) =~= seq![]);
            Some((n, none))
        },
        _ => None,
    }
}

/// Class and arguments through which a field of `owner` is looked up.
fn lookup_start(
    owner: Option<&Expr>,
    cls: &str,
    pc: &PoolClass,
) -> (r: Option<(String, Vec<GType>)>)
    ensures
        opt_instance(r) == owner_instance(
            match owner {
                Some(o) => Some(o@),
                None => None,
            },
            cls@,
            pc@,
        ),
{
    match owner {
        Some(Expr::This) => match signature_of(pc) {
            Some(s) => Some((pc.internal_name.clone(), variables(&s.params))),
            None => None,
        },
        Some(o) => {
            let t = o.type_ref();
            match &t {
                TypeRef::G(GType::Class(cs)) => {
                    proof {
                        reveal_with_fuel(GType::view, 2);
                    }
                    assert(sig_parts(cs.parts@).len() == cs.parts@.len());
                    if cs.parts.len() == 0 {
                        return None;
                    }
                    let last = cs.parts.len() - 1;
                    assert(sig_parts(cs.parts@)[last as int] == cs.parts@[last as int]@);
                    Some((cs.internal_name(), clone_generics(&cs.parts[last].args)))
                },
                other => erased_start(other),
            }
        },
        None => {
            let none: Vec<GType> = Vec::new();
            assert(generics(none@) =~= seq![]);
            Some((cls.to_owned(), none))
        },
    }
}

/// The supertypes of a class with given arguments.
#[derive(Debug)]
pub struct SuperLink {
    pub cls: String,
    pub args: Vec<GType>,
    pub supers: Vec<(String, Vec<GType>)>,
}

/// Model of [`SuperLink`].
pub ghost struct SuperLinkV {
    pub cls: Seq<char>,
    pub args: Seq<GTypeV>,
    pub supers: Seq<(Seq<char>, Seq<GTypeV>)>,
}

/// Model of classes with their arguments.
pub open spec fn instances(v: Seq<(String, Vec<GType>)>) -> Seq<(Seq<char>, Seq<GTypeV>)> {
    Seq::new(v.len(), |i: int| (v[i].0@, generics(v[i].1@)))
}

impl SuperLink {
    pub open spec fn view(&self) -> SuperLinkV {
        SuperLinkV {
            cls: self.cls@,
            args: generics(self.args@),
            supers: instances(self.supers@),
        }
    }
}

/// Model of a list of links.
pub open spec fn super_links(v: Seq<SuperLink>) -> Seq<SuperLinkV> {
    Seq::new(v.len(), |i: int| v[i]@)
}

/// The supertypes of `cls` with `args` after the last link for them; none without
/// a link.
pub open spec fn supers_of(links: Seq<SuperLinkV>, cls: Seq<char>, args: Seq<GTypeV>) -> Seq<
    (Seq<char>, Seq<GTypeV>),
>
    decreases links.len(),
{
    if links.len() == 0 {
        seq![]
    } else if links.last().cls == cls && links.last().args == args {
        links.last().supers
    } else {
        supers_of(links.drop_last(), cls, args)
    }
}

/// Adds the supertypes of `cls` with `args` to the end of `queue`.
#[verifier::loop_isolation(false)]
fn push_supers(
    links: &Vec<SuperLink>,
    cls: &str,
    args: &Vec<GType>,
    queue: &mut Vec<(String, Vec<GType>)>,
)
    ensures
        instances(final(queue)@) == instances(old(queue)@) + supers_of(
            super_links(links@),
            cls@,
            generics(args@),
        ),
{
    let ghost all = super_links(links@);
    let ghost goal = supers_of(all, cls@, generics(args@));
    let mut i: usize = links.len();
    assert(all.take(i as int) =~= all);
    while i > 0
        invariant
            i <= links.len(),
            supers_of(all.take(i as int), cls@, generics(args@)) == goal,
            queue@ == old(queue)@,
        decreases i,
    {
        i -= 1;
        assert(all.take(i + 1).last() == links@[i as int]@);
        assert(all.take(i + 1).drop_last() =~= all.take(i as int));
        if str_eq(links[i].cls.as_str(), cls) && generics_eq(&links[i].args, args) {
            let found = &links[i].supers;
            assert(instances(found@) == goal);
            let mut k: usize = 0;
            assert(instances(queue@) =~= instances(old(queue)@) + instances(found@).take(0));
            while k < found.len()
                invariant
                    k <= found.len(),
                    instances(queue@) == instances(old(queue)@) + instances(found@).take(k as int),
                decreases found.len() - k,
            {
                let ghost before = instances(queue@);
                let next = (found[k].0.clone(), clone_generics(&found[k].1));
                queue.push(next);
                assert(instances(queue@) =~= before.push(instances(found@)[k as int]));
                k += 1;
                assert(instances(queue@) =~= instances(old(queue)@) + instances(found@).take(
                    k as int,
                ));
            }
            assert(instances(found@).take(k as int) =~= instances(found@));
            return ;
        }
    }
    assert(instances(queue@) =~= instances(old(queue)@) + goal);
}

/// An instance field of that name.
pub open spec fn is_instance_field(pc: PoolClassV, f: MemberV, name: Seq<char>) -> bool {
    !member_flag(f, ACC_STATIC) && utf8_at(pc, f.name_index) == Some(name)
}

/// Index of the first instance field of that name.
pub open spec fn field_index(pc: PoolClassV, fields: Seq<MemberV>, name: Seq<char>) -> Option<int>
    decreases fields.len(),
{
    if fields.len() == 0 {
        None
    } else {
        match field_index(pc, fields.drop_last(), name) {
            Some(i) => Some(i),
            None => if is_instance_field(pc, fields.last(), name) {
                Some(fields.len() - 1)
            } else {
                None
            },
        }
    }
}

/// A first field found among the first `n` is the first of all.
proof fn lemma_field_index(pc: PoolClassV, fields: Seq<MemberV>, n: int, name: Seq<char>)
    requires
        0 <= n <= fields.len(),
        field_index(pc, fields.take(n), name) is Some,
    ensures
        field_index(pc, fields, name) == field_index(pc, fields.take(n), name),
    decreases fields.len() - n,
{
    if n < fields.len() {
        assert(fields.take(n + 1).drop_last() =~= fields.take(n));
        lemma_field_index(pc, fields, n + 1, name);
    } else {
        assert(fields.take(n) =~= fields);
    }
}

/// The first instance field of that name.
#[verifier::loop_isolation(false)]
fn find_field<'a>(pc: &'a PoolClass, name: &str) -> (r: Option<&'a Member>)
    ensures
        match r {
            Some(f) => field_index(pc@, pc@.fields, name@) matches Some(i) && 0 <= i
                < pc@.fields.len() && pc@.fields[i] == f@,
            None => field_index(pc@, pc@.fields, name@) is None,
        },
{
    let ghost all = pc@.fields;
    let mut i: usize = 0;
    while i < pc.fields.len()
        invariant
            i <= pc.fields.len(),
            field_index(pc@, all.take(i as int), name@) is None,
        decreases pc.fields.len() - i,
    {
        assert(all.take(i + 1).drop_last() =~= all.take(i as int));
        assert(all.take(i + 1).last() == pc.fields@[i as int]@);
        if !pc.fields[i].has_flag(ACC_STATIC) && crate::classes::opt_is(
            pc.utf8(pc.fields[i].name_index),
            name,
        ) {
            proof {
                lemma_field_index(pc@, all, i + 1, name@);
            }
            return Some(&pc.fields[i]);
        }
        i += 1;
    }
    assert(all.take(i as int) =~= all);
    None
}

/// A class type with arguments, or an array.
pub open spec fn is_parameterized(g: GTypeV) -> bool {
    match g {
        GTypeV::Class(cs) => has_args(cs.parts),
        GTypeV::Array(_) => true,
        _ => false,
    }
}

/// Some part has arguments.
pub open spec fn has_args(parts: Seq<ClassSigPartV>) -> bool {
    exists|i: int| 0 <= i < parts.len() && (#[trigger] parts[i]).args.len() > 0
}

/// Whether some part has arguments.
#[verifier::loop_isolation(false)]
pub fn any_args(parts: &Vec<ClassSigPart>) -> (r: bool)
    ensures
        r == has_args(sig_parts(parts@)),
{
    let mut i: usize = 0;
    while i < parts.len()
        invariant
            i <= parts.len(),
            forall|j: int| 0 <= j < i ==> (#[trigger] sig_parts(parts@)[j]).args.len() == 0,
        decreases parts.len() - i,
    {
        assert(sig_parts(parts@)[i as int] == parts@[i as int]@);
        assert(generics(parts@[i as int].args@).len() == parts@[i as int].args@.len());
        if parts[i].args.len() > 0 {
            return true;
        }
        i += 1;
    }
    false
}

/// A field type with the declaring class's parameters replaced by arguments, where
/// that gives a type that can be written.
pub open spec fn instantiated(
    ft: GTypeV,
    params: Seq<TParamV>,
    args: Seq<GTypeV>,
) -> Option<GTypeV> {
    if !mentions_typevar(ft) && !is_parameterized(ft) {
        None
    } else if args.len() != params.len() {
        None
    } else if nests_wildcard(substituted(ft, params, args)) {
        None
    } else {
        Some(substituted(ft, params, args))
    }
}

/// A field type with the declaring class's parameters replaced by arguments.
pub fn instantiate(ft: &GType, params: &Vec<TParam>, args: &Vec<GType>) -> (r: Option<GType>)
    ensures
        opt_generic(r) == instantiated(ft@, type_params(params@), generics(args@)),
{
    assert(generics(args@).len() == args@.len());
    proof {
        reveal_with_fuel(GType::view, 2);
        reveal_with_fuel(WildcardBound::view, 2);
        reveal_with_fuel(ClassSig::view, 2);
    }
    if !contains_typevar(ft) {
        let parameterized = match ft {
            GType::Class(cs) => any_args(&cs.parts),
            GType::Array(_) => true,
            _ => false,
        };
        if !parameterized {
            return None;
        }
    }
    if args.len() != params.len() {
        return None;
    }
    let inst = subst_typevars(ft, params, args);
    if has_nested_wildcard(&inst) {
        return None;
    }
    Some(inst)
}

/// The type of field `f` of class `d` with `args`.
pub open spec fn field_type(d: PoolClassV, f: MemberV, args: Seq<GTypeV>) -> Option<GTypeV> {
    match signature_text(d, f.attributes) {
        Some(text) => match parsed_field_signature(text) {
            Some(ft) => instantiated(ft, class_params(d), args),
            None => None,
        },
        None => None,
    }
}

/// The type of field `f` of class `d` with `args`.
fn type_of_field(d: &PoolClass, f: &Member, args: &Vec<GType>) -> (r: Option<GType>)
    ensures
        opt_generic(r) == field_type(d@, f@, generics(args@)),
{
    let text = match d.signature_text(&f.attributes) {
        Some(text) => text,
        None => {
            return None;
        },
    };
    let ft = match parse_field_signature(text) {
        Some(ft) => ft,
        None => {
            return None;
        },
    };
    match signature_of(d) {
        Some(s) => instantiate(&ft, &s.params, args),
        None => {
            let none: Vec<TParam> = Vec::new();
            assert(type_params(none@) =~= seq![]);
            instantiate(&ft, &none, args)
        },
    }
}

/// The class `cur`: the class at hand, or one of the pool.
pub open spec fn class_named(
    cur: Seq<char>,
    pool: ClassPoolV,
    pc: PoolClassV,
) -> Option<PoolClassV> {
    if cur == pc.internal_name {
        Some(pc)
    } else {
        pool_get(pool, cur)
    }
}

/// The names of the class at hand and of the classes in the pool.
pub open spec fn known_names(pool: ClassPoolV, pc: PoolClassV) -> Seq<Seq<char>> {
    Seq::new(pool.classes.len(), |i: int| pool.classes[i].internal_name).push(pc.internal_name)
}

/// How many of `names` are not visited.
pub open spec fn unvisited(names: Seq<Seq<char>>, visited: Seq<Seq<char>>) -> nat
    decreases names.len(),
{
    if names.len() == 0 {
        0
    } else {
        unvisited(names.drop_last(), visited) + if visited.contains(names.last()) {
            0nat
        } else {
            1nat
        }
    }
}

/// A visit leaves fewer names unvisited.
proof fn lemma_visit(names: Seq<Seq<char>>, visited: Seq<Seq<char>>, x: Seq<char>)
    ensures
        unvisited(names, visited.push(x)) <= unvisited(names, visited),
        names.contains(x) && !visited.contains(x) ==> unvisited(names, visited.push(x)) < unvisited(
            names,
            visited,
        ),
    decreases names.len(),
{
    if names.len() > 0 {
        lemma_visit(names.drop_last(), visited, x);
        let n = names.last();
        if visited.contains(n) {
            let k = choose|k: int| 0 <= k < visited.len() && visited[k] == n;
            assert(visited.push(x)[k] == n);
        }
        if names.contains(x) && !visited.contains(x) {
            assert(visited.push(x)[visited.len() as int] == x);
            if n != x {
                let k = choose|k: int| 0 <= k < names.len() && names[k] == x;
                assert(names.drop_last()[k] == x);
            }
        }
    }
}

/// A class that is found is a known one.
proof fn lemma_class_known(cur: Seq<char>, pool: ClassPoolV, pc: PoolClassV)
    requires
        class_named(cur, pool, pc) is Some,
    ensures
        known_names(pool, pc).contains(cur),
{
    let names = known_names(pool, pc);
    if cur == pc.internal_name {
        assert(names[names.len() - 1] == cur);
    } else {
        crate::classes::lemma_class_index(pool.classes, cur);
        let i = crate::classes::class_index(pool.classes, cur).unwrap();
        assert(names[i] == cur);
    }
}

/// The type of instance field `name`, searched breadth first through `queue`: the
/// first class that declares the field decides, and no class is visited twice.
pub open spec fn field_search(
    queue: Seq<(Seq<char>, Seq<GTypeV>)>,
    visited: Seq<Seq<char>>,
    name: Seq<char>,
    pool: ClassPoolV,
    pc: PoolClassV,
    links: Seq<SuperLinkV>,
) -> Option<GTypeV>
    decreases unvisited(known_names(pool, pc), visited), queue.len()
    via field_search_decreases
{
    if queue.len() == 0 {
        None
    } else {
        let (cur, args) = queue[0];
        let rest = queue.skip(1);
        if visited.contains(cur) {
            field_search(rest, visited, name, pool, pc, links)
        } else {
            match class_named(cur, pool, pc) {
                None => field_search(rest, visited.push(cur), name, pool, pc, links),
                Some(d) => match field_index(d, d.fields, name) {
                    Some(i) => field_type(d, d.fields[i], args),
                    None => field_search(
                        rest + supers_of(links, cur, args),
                        visited.push(cur),
                        name,
                        pool,
                        pc,
                        links,
                    ),
                },
            }
        }
    }
}

#[via_fn]
proof fn field_search_decreases(
    queue: Seq<(Seq<char>, Seq<GTypeV>)>,
    visited: Seq<Seq<char>>,
    name: Seq<char>,
    pool: ClassPoolV,
    pc: PoolClassV,
    links: Seq<SuperLinkV>,
) {
    if queue.len() > 0 {
        let (cur, args) = queue[0];
        lemma_visit(known_names(pool, pc), visited, cur);
        if class_named(cur, pool, pc) is Some {
            lemma_class_known(cur, pool, pc);
        }
    }
}

/// The generic type of instance field `name` as the owner's type instantiates it.
pub open spec fn field_instance(
    owner: Option<ExprV>,
    cls: Seq<char>,
    name: Seq<char>,
    pool: ClassPoolV,
    pc: PoolClassV,
    links: Seq<SuperLinkV>,
) -> Option<TypeRefV> {
    match owner_instance(owner, cls, pc) {
        Some(start) => match field_search(seq![start], seq![], name, pool, pc, links) {
            Some(g) => Some(TypeRefV::G(g)),
            None => None,
        },
        None => None,
    }
}

/// The generic type of instance field `name` as the owner's type instantiates it
/// (owner `Entry<K, V>` and field `next: Entry<K, V>` give `Entry<K, V>`). `links`
/// holds the supertypes of the classes that the search climbs through.
#[verifier::loop_isolation(false)]
pub fn instantiated_field_type(
    owner: Option<&Expr>,
    cls: &str,
    name: &str,
    pool: &ClassPool,
    pc: &PoolClass,
    links: &Vec<SuperLink>,
) -> (r: Option<TypeRef>)
    ensures
        opt_type(r) == field_instance(
            match owner {
                Some(o) => Some(o@),
                None => None,
            },
            cls@,
            name@,
            pool@,
            pc@,
            super_links(links@),
        ),
{
    let start = match lookup_start(owner, cls, pc) {
        Some(start) => start,
        None => {
            return None;
        },
    };
    let ghost l = super_links(links@);
    let ghost first = (start.0@, generics(start.1@));
    let ghost goal = field_search(seq![first], seq![], name@, pool@, pc@, l);
    let mut queue: Vec<(String, Vec<GType>)> = Vec::new();
    queue.push(start);
    assert(instances(queue@) =~= seq![first]);
    let mut visited: Vec<String> = Vec::new();
    assert(strs(visited@) =~= seq![]);
    while queue.len() > 0
        invariant
            field_search(instances(queue@), strs(visited@), name@, pool@, pc@, l) == goal,
        decreases unvisited(known_names(pool@, pc@), strs(visited@)), queue.len(),
    {
        let ghost q = instances(queue@);
        let ghost seen = strs(visited@);
        assert(q[0] == (queue@[0].0@, generics(queue@[0].1@)));
        let (cur, args) = queue.remove(0);
        assert(instances(queue@) =~= q.skip(1));
        proof {
            lemma_visit(known_names(pool@, pc@), seen, cur@);
        }
        if crate::text::contains_string(&visited, cur.as_str()) {
            continue;
        }
        visited.push(cur.clone());
        assert(strs(visited@) =~= seen.push(cur@));
        let found = if str_eq(cur.as_str(), pc.internal_name.as_str()) {
            Some(pc)
        } else {
            pool.get(cur.as_str())
        };
        let d = match found {
            Some(d) => d,
            None => {
                continue;
            },
        };
        proof {
            lemma_class_known(cur@, pool@, pc@);
        }
        match find_field(d, name) {
            Some(f) => {
                return match type_of_field(d, f, &args) {
                    Some(g) => Some(TypeRef::G(g)),
                    None => None,
                };
            },
            None => {
                push_supers(links, cur.as_str(), &args, &mut queue);
            },
        }
    }
    None
}

/// The type variable that a method returns.
pub open spec fn returned_variable(s: MethodSignatureV) -> Option<Seq<char>> {
    match s.ret {
        GTypeV::TypeVar(v) => Some(v),
        _ => None,
    }
}

/// The type variable that a method returns.
pub fn ret_typevar(s: &MethodSignature) -> (r: Option<String>)
    ensures
        opt_str(r) == returned_variable(s@),
{
    match &s.ret {
        GType::TypeVar(v) => Some(v.clone()),
        _ => None,
    }
}

/// The type variable that the signature of a called method returns.
pub open spec fn call_variable(e: ExprV, pool: ClassPoolV) -> Option<Seq<char>> {
    match e {
        ExprV::Method { cls, name, desc, .. } => match pool_get(pool, cls) {
            Some(d) => match own_method(d, d.methods.len(), name, desc_text(desc)) {
                Some(i) => match signature_text(d, d.methods[i].attributes) {
                    Some(text) => match parsed_method_signature(text) {
                        Some(s) => returned_variable(s),
                        None => None,
                    },
                    None => None,
                },
                None => None,
            },
            None => None,
        },
        _ => None,
    }
}

/// The type variable that the signature of a called method returns: the assignment
/// binds it, so no cast is needed there.
pub fn generic_call_ret_typevar(e: &Expr, pool: &ClassPool) -> (r: Option<String>)
    ensures
        opt_str(r) == call_variable(e@, pool@),
{
    let (cls, name, desc) = match e {
        Expr::Method { cls, name, desc, .. } => (cls, name, desc),
        _ => {
            return None;
        },
    };
    let d = match pool.get(cls.as_str()) {
        Some(d) => d,
        None => {
            return None;
        },
    };
    let want = desc.text();
    let i = match d.find_own_method(name.as_str(), want.as_str()) {
        Some(i) => i,
        None => {
            return None;
        },
    };
    proof {
        crate::classes::lemma_own_method_bound(d@, d@.methods.len(), name@, want@);
    }
    assert(d@.methods[i as int] == d.methods@[i as int]@);
    let text = match d.signature_text(&d.methods[i].attributes) {
        Some(text) => text,
        None => {
            return None;
        },
    };
    match parse_method_signature(text) {
        Some(s) => ret_typevar(&s),
        None => None,
    }
}

} // verus!
