//! Casts to generic types that leave no trace in bytecode.
use crate::asserts::zero;
use crate::classes::{ClassPool, ClassPoolV, PoolClass, PoolClassV};
use crate::expr::{
    clone_expr, exprs, opt_box, opt_expr, take_expr, type_of, ConstVal, ConstValV, Expr, ExprV,
};
use crate::generics::{
    any_args, call_variable, field_instance, g_has_wildcard, generic_call_ret_typevar, has_args,
    instantiated_field_type, mentions_wildcard, super_links, SuperLink, SuperLinkV,
};
use crate::signatures::{opt_generic, opt_java};
use crate::stmt::{
    case_groups, catch_list, opt_stmt, stmts, CaseGroup, CaseGroupV, Catch, CatchV, Stmt, StmtV,
};
use crate::types::{
    clone_generic, erase, erase_generic, generic_eq, generics_eq, internal_name, object_type,
    sig_parts, str_eq, ClassSig, ClassSigV, GType, GTypeV, JType, JTypeV, TypeRef, TypeRefV,
};
use crate::var::{var_type, VarTable, VarTableV};
use vstd::prelude::*;

verus! {

/// What the class hierarchy says of one value and the type that it is wanted as.
#[derive(Debug)]
pub struct CastFacts {
    /// The value calls a signature-polymorphic method.
    pub polymorphic: bool,
    /// Erasure of the bound of the type variable that the value's cast names.
    pub cast_bound: Option<JType>,
    /// The operand of the value's cast is a generic call.
    pub cast_generic: bool,
    /// The class of the value's cast is a subtype of the wanted class.
    pub cast_subtype: bool,
    /// The instantiated return type of the value's call.
    pub method_ret: Option<GType>,
    /// The value is a generic call.
    pub generic: bool,
    /// A class literal argument binds a type variable otherwise than the target.
    pub literal_conflict: bool,
    /// The target binds a type variable against its bound.
    pub bound_conflict: bool,
}

/// Model of [`CastFacts`].
pub ghost struct CastFactsV {
    pub polymorphic: bool,
    pub cast_bound: Option<JTypeV>,
    pub cast_generic: bool,
    pub cast_subtype: bool,
    pub method_ret: Option<GTypeV>,
    pub generic: bool,
    pub literal_conflict: bool,
    pub bound_conflict: bool,
}

impl CastFacts {
    pub open spec fn view(&self) -> CastFactsV {
        CastFactsV {
            polymorphic: self.polymorphic,
            cast_bound: opt_java(self.cast_bound),
            cast_generic: self.cast_generic,
            cast_subtype: self.cast_subtype,
            method_ret: opt_generic(self.method_ret),
            generic: self.generic,
            literal_conflict: self.literal_conflict,
            bound_conflict: self.bound_conflict,
        }
    }
}

/// Model of a list of facts.
pub open spec fn cast_facts(v: Seq<CastFacts>) -> Seq<CastFactsV> {
    Seq::new(v.len(), |i: int| v[i]@)
}

/// Nothing is known.
pub open spec fn no_facts() -> CastFactsV {
    CastFactsV {
        polymorphic: false,
        cast_bound: None,
        cast_generic: false,
        cast_subtype: false,
        method_ret: None,
        generic: false,
        literal_conflict: false,
        bound_conflict: false,
    }
}

impl CastFacts {
    /// Nothing is known.
    pub fn unknown() -> (r: CastFacts)
        ensures
            r@ == no_facts(),
    {
        CastFacts {
            polymorphic: false,
            cast_bound: None,
            cast_generic: false,
            cast_subtype: false,
            method_ret: None,
            generic: false,
            literal_conflict: false,
            bound_conflict: false,
        }
    }
}

// ---------------------------------------------------------------------
// One value.

/// The erasure of the bound of a cast to a type variable or an array of one.
pub open spec fn cast_bound(ty: TypeRefV, bound: Option<JTypeV>) -> Option<JTypeV> {
    match ty {
        TypeRefV::G(g) => match g {
            GTypeV::TypeVar(_) => bound,
            GTypeV::Array(e) => match *e {
                GTypeV::TypeVar(_) => match bound {
                    Some(b) => Some(JTypeV::Array(Box::new(b))),
                    None => None,
                },
                _ => None,
            },
            _ => None,
        },
        TypeRefV::J(_) => None,
    }
}

/// Both are classes, or both arrays, and they differ.
pub open spec fn differ_alike(ret: JTypeV, bound: Option<JTypeV>) -> bool {
    match bound {
        Some(b) => ((ret is Object && b is Object) || (ret is Array && b is Array)) && ret != b,
        None => false,
    }
}

/// A cast that came from a `checkcast` instruction: its erasure, or that of the
/// bound, differs from what the called method returns.
pub open spec fn is_real_cast(ty: TypeRefV, e: ExprV, bound: Option<JTypeV>) -> bool {
    ty is J || (e matches ExprV::Method { desc, .. } && (desc.ret != erase(ty) || differ_alike(
        desc.ret,
        cast_bound(ty, bound),
    )))
}

/// A generics-only cast around a generic call.
pub open spec fn is_made_up_cast(value: ExprV, f: CastFactsV) -> bool {
    value matches ExprV::Cast { ty, e } && (!is_real_cast(ty, *e, f.cast_bound) && f.cast_generic)
}

/// Two class types whose last parts have different arguments.
pub open spec fn args_differ(a: ClassSigV, b: ClassSigV) -> bool {
    a.parts.len() > 0 && b.parts.len() > 0 && a.parts.last().args != b.parts.last().args
}

/// A cast to a class type with other arguments than the wanted class type, which
/// only a raw type between the two makes legal.
pub open spec fn needs_raw_hop(ty: TypeRefV, want: TypeRefV, subtype: bool) -> bool {
    match (ty, want) {
        (TypeRefV::G(g), TypeRefV::G(w)) => match (g, w) {
            (GTypeV::Class(c), GTypeV::Class(d)) => {
                &&& args_differ(c, d)
                &&& internal_name(c) == internal_name(d) || subtype
                &&& !mentions_wildcard(g)
                &&& !mentions_wildcard(w)
            },
            _ => false,
        },
        _ => false,
    }
}

/// Both arrays, or the same class.
pub open spec fn erasures_agree(have: JTypeV, want: JTypeV) -> bool {
    match (have, want) {
        (JTypeV::Array(_), JTypeV::Array(_)) => true,
        (JTypeV::Object(x), JTypeV::Object(y)) => x == y,
        _ => false,
    }
}

/// `value` cast to `ty`.
pub open spec fn cast_as(ty: TypeRefV, value: ExprV) -> ExprV {
    ExprV::Cast { ty, e: Box::new(value) }
}

/// `value ? 1 : 0`.
pub open spec fn as_number(value: ExprV) -> ExprV {
    ExprV::Cond {
        c: Box::new(value),
        t: Box::new(ExprV::Const(ConstValV::Int(1))),
        f: Box::new(zero()),
    }
}

/// A read of a variable, field or element, or a call.
pub open spec fn is_read(e: ExprV) -> bool {
    e is Local || e is Method || e is Field || e is ArrayIndex
}

/// `value` wanted as the plain type `want`: a boolean becomes a number where one is
/// wanted, an `Object` is cast to a class.
pub open spec fn cast_plain(value: ExprV, want: JTypeV) -> ExprV {
    let have = erase(type_of(value));
    if (want is Int || want is Byte || want is Short) && have is Boolean {
        if want is Int {
            as_number(value)
        } else {
            cast_as(TypeRefV::J(want), as_number(value))
        }
    } else if want is Object && want != object_type() && have == object_type() && is_read(value) {
        cast_as(TypeRefV::J(want), value)
    } else {
        value
    }
}

/// Some argument has a type with a wildcard.
pub open spec fn wildcard_argument(args: Seq<ExprV>) -> bool {
    exists|i: int|
        0 <= i < args.len() && (type_of(#[trigger] args[i]) matches TypeRefV::G(g)
            && mentions_wildcard(g))
}

/// A generic call with a wildcard among its arguments, wanted as a class with
/// arguments.
pub open spec fn is_wild_call(value: ExprV, want: GTypeV, f: CastFactsV) -> bool {
    &&& value matches ExprV::Method { args, .. } && wildcard_argument(args)
    &&& want matches GTypeV::Class(cs) && has_args(cs.parts)
    &&& f.generic
}

/// A call of `getClass()`.
pub open spec fn is_get_class(e: ExprV) -> bool {
    e matches ExprV::Method { name, args, .. } && (name == "getClass"@ && args.len() == 0)
}

/// A call with `getClass()` among its arguments, wanted as an array of a type
/// variable.
pub open spec fn is_reflective_array(value: ExprV, want: GTypeV) -> bool {
    &&& want matches GTypeV::Array(e) && (*e is TypeVar)
    &&& value matches ExprV::Method { args, .. } && (exists|i: int|
        0 <= i < args.len() && is_get_class(#[trigger] args[i]))
}

/// A class literal.
pub open spec fn is_class_literal(e: ExprV) -> bool {
    e matches ExprV::Const(c) && c is ClassLit
}

/// A call with a class literal among its arguments.
pub open spec fn passes_class_literal(value: ExprV) -> bool {
    value matches ExprV::Method { args, .. } && (exists|i: int|
        0 <= i < args.len() && is_class_literal(#[trigger] args[i]))
}

/// A value whose erasure agrees with the wanted type's needs the cast.
pub open spec fn needs_cast(value: ExprV, want: GTypeV, f: CastFactsV) -> bool {
    ||| is_wild_call(value, want, f)
    ||| !f.generic
    ||| is_reflective_array(value, want)
    ||| passes_class_literal(value) && f.literal_conflict
    ||| f.bound_conflict
}

/// A value that a raw cast can be put on.
pub open spec fn is_raw_castable(value: ExprV, want: GTypeV) -> bool {
    is_read(value) || ((value is New || value is AnonNew) && (want is TypeVar || want is Array))
}

/// The call already has the wanted type.
pub open spec fn returns_wanted(
    value: ExprV,
    want: GTypeV,
    f: CastFactsV,
    pool: ClassPoolV,
) -> bool {
    ||| want matches GTypeV::TypeVar(v) && (call_variable(value, pool) == Some(v) && (f.method_ret
        is None || f.method_ret == Some(want)))
    ||| value is Method && f.method_ret == Some(want)
}

/// `value` wanted as the generic type `want`.
pub open spec fn cast_generic(
    value: ExprV,
    want: GTypeV,
    f: CastFactsV,
    pool: ClassPoolV,
) -> ExprV {
    let wanted = TypeRefV::G(want);
    let have = erase(type_of(value));
    match value {
        ExprV::Cast { ty, e } => if ty != wanted && erasures_agree(erase(ty), erase_generic(want)) {
            ExprV::Cast { ty: wanted, e }
        } else {
            value
        },
        _ => if type_of(value) == wanted || returns_wanted(value, want, f, pool) {
            value
        } else if erasures_agree(have, erase_generic(want)) {
            if needs_cast(value, want, f) {
                cast_as(wanted, value)
            } else {
                value
            }
        } else if have is Object && erase_generic(want) is Object && have != object_type() && have
            != JTypeV::Object("java/lang/String"@) && is_raw_castable(value, want) {
            cast_as(
                if want is TypeVar {
                    wanted
                } else {
                    TypeRefV::J(have)
                },
                value,
            )
        } else {
            value
        },
    }
}

/// `value` as it is written where `want` is wanted.
pub open spec fn value_fixed(
    value: ExprV,
    want: TypeRefV,
    f: CastFactsV,
    pool: ClassPoolV,
) -> ExprV {
    if value is Const || (value is Method && f.polymorphic) {
        value
    } else {
        match value {
            ExprV::Cast { ty, e } => if is_made_up_cast(value, f) {
                *e
            } else if needs_raw_hop(ty, want, f.cast_subtype) {
                cast_as(want, ExprV::Cast { ty: TypeRefV::J(erase(ty)), e })
            } else {
                cast_want(value, want, f, pool)
            },
            _ => cast_want(value, want, f, pool),
        }
    }
}

/// `value` as it is written where `want` is wanted, its own cast apart.
pub open spec fn cast_want(value: ExprV, want: TypeRefV, f: CastFactsV, pool: ClassPoolV) -> ExprV {
    match want {
        TypeRefV::J(t) => cast_plain(value, t),
        TypeRefV::G(g) => cast_generic(value, g, f, pool),
    }
}

/// The erasure of the bound of a cast.
fn bound_of(ty: &TypeRef, bound: &Option<JType>) -> (r: Option<JType>)
    ensures
        opt_java(r) == cast_bound(ty@, opt_java(*bound)),
{
    proof {
        reveal_with_fuel(GType::view, 3);
    }
    match ty {
        TypeRef::G(GType::TypeVar(_)) => match bound {
            Some(b) => Some(b.clone()),
            None => None,
        },
        TypeRef::G(GType::Array(e)) => match **e {
            GType::TypeVar(_) => match bound {
                Some(b) => Some(JType::Array(Box::new(b.clone()))),
                None => None,
            },
            _ => None,
        },
        _ => None,
    }
}

/// Whether both are classes, or both arrays, and they differ.
fn unlike(ret: &JType, bound: &Option<JType>) -> (r: bool)
    ensures
        r == differ_alike(ret@, opt_java(*bound)),
{
    match bound {
        Some(b) => match (ret, b) {
            (JType::Object(_), JType::Object(_)) => !ret.same(b),
            (JType::Array(_), JType::Array(_)) => !ret.same(b),
            _ => false,
        },
        None => false,
    }
}

/// Whether a cast came from a `checkcast` instruction.
fn real_cast(ty: &TypeRef, e: &Expr, bound: &Option<JType>) -> (r: bool)
    ensures
        r == is_real_cast(ty@, e@, opt_java(*bound)),
{
    match ty {
        TypeRef::J(_) => true,
        TypeRef::G(_) => match e {
            Expr::Method { desc, .. } => {
                let b = bound_of(ty, bound);
                !desc.ret.same(&ty.erased()) || unlike(&desc.ret, &b)
            },
            _ => false,
        },
    }
}

/// Whether only a raw type between the two makes a cast legal.
fn raw_hop(ty: &TypeRef, want: &TypeRef, subtype: bool) -> (r: bool)
    ensures
        r == needs_raw_hop(ty@, want@, subtype),
{
    proof {
        reveal_with_fuel(GType::view, 2);
    }
    match (ty, want) {
        (TypeRef::G(g), TypeRef::G(w)) => match (g, w) {
            (GType::Class(c), GType::Class(d)) => {
                if !arguments_differ(c, d) {
                    return false;
                }
                let related = str_eq(c.internal_name().as_str(), d.internal_name().as_str())
                    || subtype;
                related && !g_has_wildcard(g) && !g_has_wildcard(w)
            },
            _ => false,
        },
        _ => false,
    }
}

/// Whether the last parts of two class types have different arguments.
fn arguments_differ(a: &ClassSig, b: &ClassSig) -> (r: bool)
    ensures
        r == args_differ(a@, b@),
{
    assert(sig_parts(a.parts@).len() == a.parts@.len());
    assert(sig_parts(b.parts@).len() == b.parts@.len());
    if a.parts.len() == 0 || b.parts.len() == 0 {
        return false;
    }
    let i = a.parts.len() - 1;
    let j = b.parts.len() - 1;
    assert(sig_parts(a.parts@)[i as int] == a.parts@[i as int]@);
    assert(sig_parts(b.parts@)[j as int] == b.parts@[j as int]@);
    !generics_eq(&a.parts[i].args, &b.parts[j].args)
}

/// Whether both are arrays, or the same class.
fn compatible_erasure(have: &JType, want: &JType) -> (r: bool)
    ensures
        r == erasures_agree(have@, want@),
{
    match (have, want) {
        (JType::Array(_), JType::Array(_)) => true,
        (JType::Object(x), JType::Object(y)) => str_eq(x.as_str(), y.as_str()),
        _ => false,
    }
}

/// Whether `e` reads a variable, field or element, or calls a method.
fn reads(e: &Expr) -> (r: bool)
    ensures
        r == is_read(e@),
{
    match e {
        Expr::Local { .. } => true,
        Expr::Method { .. } => true,
        Expr::Field { .. } => true,
        Expr::ArrayIndex { .. } => true,
        _ => false,
    }
}

/// Casts `value` to `ty`.
fn put_cast(value: &mut Expr, ty: TypeRef)
    ensures
        final(value)@ == cast_as(ty@, old(value)@),
{
    let inner = take_expr(value);
    *value = Expr::Cast { ty, e: Box::new(inner) };
}

/// Writes `value` where the plain type `want` is wanted.
fn fix_plain(value: &mut Expr, want: &JType)
    ensures
        final(value)@ == cast_plain(old(value)@, want@),
{
    proof {
        reveal_with_fuel(Expr::view, 2);
    }
    let have = value.type_ref().erased();
    let number = match want {
        JType::Int => true,
        JType::Byte => true,
        JType::Short => true,
        _ => false,
    };
    if number && matches!(have, JType::Boolean) {
        let inner = take_expr(value);
        *value = Expr::Cond {
            c: Box::new(inner),
            t: Box::new(Expr::Const(ConstVal::Int(1))),
            f: Box::new(Expr::Const(ConstVal::Int(0))),
        };
        if !matches!(want, JType::Int) {
            put_cast(value, TypeRef::J(want.clone()));
        }
        return ;
    }
    let class = match want {
        JType::Object(n) => !str_eq(n.as_str(), "java/lang/Object"),
        _ => false,
    };
    if class && have.is_object("java/lang/Object") && reads(value) {
        put_cast(value, TypeRef::J(want.clone()));
    }
}

/// Whether some argument has a type with a wildcard.
#[verifier::loop_isolation(false)]
fn any_wildcard(args: &Vec<Expr>) -> (r: bool)
    ensures
        r == wildcard_argument(exprs(args@)),
{
    let ghost all = exprs(args@);
    let mut i: usize = 0;
    while i < args.len()
        invariant
            i <= args.len(),
            forall|j: int|
                0 <= j < i
                    ==> !(
                        type_of(#[trigger] all[j]) matches TypeRefV::G(g) && mentions_wildcard(g)
                    ),
        decreases args.len() - i,
    {
        assert(all[i as int] == args@[i as int]@);
        let wild = match args[i].type_ref() {
            TypeRef::G(g) => g_has_wildcard(&g),
            TypeRef::J(_) => false,
        };
        if wild {
            return true;
        }
        i += 1;
    }
    false
}

/// Whether some argument is a call of `getClass()`.
#[verifier::loop_isolation(false)]
fn any_get_class(args: &Vec<Expr>) -> (r: bool)
    ensures
        r == exists|i: int| 0 <= i < exprs(args@).len() && is_get_class(#[trigger] exprs(args@)[i]),
{
    let ghost all = exprs(args@);
    let mut i: usize = 0;
    while i < args.len()
        invariant
            i <= args.len(),
            forall|j: int| 0 <= j < i ==> !is_get_class(#[trigger] all[j]),
        decreases args.len() - i,
    {
        assert(all[i as int] == args@[i as int]@);
        if gets_class(&args[i]) {
            return true;
        }
        i += 1;
    }
    false
}

/// Whether some argument is a class literal.
#[verifier::loop_isolation(false)]
fn any_class_literal(args: &Vec<Expr>) -> (r: bool)
    ensures
        r == exists|i: int| 0 <= i < exprs(args@).len()
            && is_class_literal(#[trigger] exprs(args@)[i]),
{
    let ghost all = exprs(args@);
    let mut i: usize = 0;
    while i < args.len()
        invariant
            i <= args.len(),
            forall|j: int| 0 <= j < i ==> !is_class_literal(#[trigger] all[j]),
        decreases args.len() - i,
    {
        assert(all[i as int] == args@[i as int]@);
        let literal = match &args[i] {
            Expr::Const(ConstVal::ClassLit(_)) => true,
            _ => false,
        };
        if literal {
            return true;
        }
        i += 1;
    }
    false
}

/// Whether `e` is a call of `getClass()`.
fn gets_class(e: &Expr) -> (r: bool)
    ensures
        r == is_get_class(e@),
{
    match e {
        Expr::Method { name, args, .. } => {
            assert(exprs(args@).len() == args@.len());
            str_eq(name.as_str(), "getClass") && args.len() == 0
        },
        _ => false,
    }
}

/// Whether a value whose erasure agrees with the wanted type's needs the cast.
fn cast_needed(value: &Expr, want: &GType, f: &CastFacts) -> (r: bool)
    ensures
        r == needs_cast(value@, want@, f@),
{
    if !f.generic || f.bound_conflict {
        return true;
    }
    if let Expr::Method { args, .. } = value {
        assert(exprs(args@).len() == args@.len());
        if let GType::Class(cs) = want {
            proof {
                reveal_with_fuel(GType::view, 2);
                reveal_with_fuel(ClassSig::view, 2);
            }
            if any_args(&cs.parts) && any_wildcard(args) {
                return true;
            }
        }
        if let GType::Array(e) = want {
            proof {
                reveal_with_fuel(GType::view, 2);
            }
            if matches!(**e, GType::TypeVar(_)) && any_get_class(args) {
                return true;
            }
        }
        if f.literal_conflict && any_class_literal(args) {
            return true;
        }
    }
    false
}

/// Whether two optional generic types are equal.
fn is_type(o: &Option<GType>, g: &GType) -> (r: bool)
    ensures
        r == (opt_generic(*o) == Some(g@)),
{
    match o {
        Some(x) => generic_eq(x, g),
        None => false,
    }
}

/// Whether a call already has the wanted type.
fn already_wanted(value: &Expr, want: &GType, f: &CastFacts, pool: &ClassPool) -> (r: bool)
    ensures
        r == returns_wanted(value@, want@, f@, pool@),
{
    if let GType::TypeVar(v) = want {
        if let Some(got) = generic_call_ret_typevar(value, pool) {
            if str_eq(got.as_str(), v.as_str()) && (f.method_ret.is_none() || is_type(
                &f.method_ret,
                want,
            )) {
                return true;
            }
        }
    }
    matches!(value, Expr::Method { .. }) && is_type(&f.method_ret, want)
}

/// Whether a raw cast can be put on a value.
fn raw_castable(value: &Expr, want: &GType) -> (r: bool)
    ensures
        r == is_raw_castable(value@, want@),
{
    if reads(value) {
        return true;
    }
    let made = match value {
        Expr::New { .. } => true,
        Expr::AnonNew { .. } => true,
        _ => false,
    };
    made && match want {
        GType::TypeVar(_) => true,
        GType::Array(_) => true,
        _ => false,
    }
}

/// Gives a cast another type.
fn retype_cast(value: &mut Expr, to: TypeRef)
    requires
        old(value)@ is Cast,
    ensures
        final(value)@ == (ExprV::Cast { ty: to@, e: old(value)@->Cast_e }),
{
    if let Expr::Cast { ty, .. } = value {
        *ty = to;
    }
}

/// Writes `value` where the generic type `want` is wanted.
fn fix_generic(value: &mut Expr, want: &GType, f: &CastFacts, pool: &ClassPool)
    ensures
        final(value)@ == cast_generic(old(value)@, want@, f@, pool@),
{
    let wanted = TypeRef::G(clone_generic(want));
    let want_er = want.erased();
    let recast = match value {
        Expr::Cast { ty, .. } => Some(
            !ty.same(&wanted) && compatible_erasure(&ty.erased(), &want_er)
        ),
        _ => None,
    };
    if let Some(go) = recast {
        if go {
            retype_cast(value, wanted);
        }
        return ;
    }
    if value.type_ref().same(&wanted) || already_wanted(value, want, f, pool) {
        return ;
    }
    let have = value.type_ref().erased();
    if compatible_erasure(&have, &want_er) {
        if cast_needed(value, want, f) {
            put_cast(value, wanted);
        }
        return ;
    }
    let classes = match (&have, &want_er) {
        (JType::Object(_), JType::Object(_)) => true,
        _ => false,
    };
    if classes && !have.is_object("java/lang/Object") && !have.is_object("java/lang/String")
        && raw_castable(value, want) {
        if matches!(want, GType::TypeVar(_)) {
            put_cast(value, wanted);
        } else {
            put_cast(value, TypeRef::J(have));
        }
    }
}

/// Drops a cast.
fn drop_cast(value: &mut Expr)
    requires
        old(value)@ is Cast,
    ensures
        final(value)@ == *old(value)@->Cast_e,
{
    if let Expr::Cast { e, .. } = take_expr(value) {
        *value = *e;
    }
}

/// What becomes of a value's own cast.
enum CastStep {
    Keep,
    Drop,
    Hop(JType),
}

/// What becomes of a value's own cast.
fn cast_step(value: &Expr, want: &TypeRef, f: &CastFacts) -> (r: CastStep)
    ensures
        match r {
            CastStep::Drop => value@ is Cast && is_made_up_cast(value@, f@),
            CastStep::Hop(raw) => (value@ matches ExprV::Cast { ty, .. } && raw@ == erase(ty)
                && needs_raw_hop(ty, want@, f@.cast_subtype)) && !is_made_up_cast(value@, f@),
            CastStep::Keep => value@ matches ExprV::Cast { ty, .. } ==> !is_made_up_cast(value@, f@)
                && !needs_raw_hop(ty, want@, f@.cast_subtype),
        },
{
    match value {
        Expr::Cast { ty, e } => {
            if !real_cast(ty, e, &f.cast_bound) && f.cast_generic {
                return CastStep::Drop;
            }
            if raw_hop(ty, want, f.cast_subtype) {
                return CastStep::Hop(ty.erased());
            }
            CastStep::Keep
        },
        _ => CastStep::Keep,
    }
}

/// Writes `value` where `want` is wanted.
pub fn fix_value(value: &mut Expr, want: &TypeRef, f: &CastFacts, pool: &ClassPool)
    ensures
        final(value)@ == value_fixed(old(value)@, want@, f@, pool@),
{
    let stays = match value {
        Expr::Const(_) => true,
        Expr::Method { .. } => f.polymorphic,
        _ => false,
    };
    if stays {
        return ;
    }
    match cast_step(value, want, f) {
        CastStep::Drop => {
            drop_cast(value);
        },
        CastStep::Hop(raw) => {
            retype_cast(value, TypeRef::J(raw));
            put_cast(value, want.clone());
        },
        CastStep::Keep => match want {
            TypeRef::J(t) => fix_plain(value, t),
            TypeRef::G(g) => fix_generic(value, g, f, pool),
        },
    }
}

// ---------------------------------------------------------------------
// All values of a method.

/// The type of the element that a store goes to.
pub open spec fn element_type(array: ExprV, vt: VarTableV) -> Option<TypeRefV> {
    let ty = match array {
        ExprV::Local { var, .. } => var_type(vt, var),
        _ => type_of(array),
    };
    match ty {
        TypeRefV::G(g) => match g {
            GTypeV::Array(e) => Some(TypeRefV::G(*e)),
            _ => None,
        },
        TypeRefV::J(t) => match t {
            JTypeV::Array(e) => Some(TypeRefV::J(*e)),
            _ => None,
        },
    }
}

/// An optional owner.
pub open spec fn owner_expr(o: Option<Box<ExprV>>) -> Option<ExprV> {
    match o {
        Some(x) => Some(*x),
        None => None,
    }
}

/// The type that a store to `target` wants: that of the variable, of the instance
/// field or of the element.
pub open spec fn wanted_type(
    target: ExprV,
    vt: VarTableV,
    pool: ClassPoolV,
    pc: PoolClassV,
    links: Seq<SuperLinkV>,
) -> Option<TypeRefV> {
    match target {
        ExprV::Local { var, .. } => Some(var_type(vt, var)),
        ExprV::Field { owner, cls, name, ty, is_static } => if is_static {
            None
        } else {
            match field_instance(owner_expr(owner), cls, name, pool, pc, links) {
                Some(t) => Some(t),
                None => Some(ty),
            }
        },
        ExprV::ArrayIndex { array, .. } => element_type(*array, vt),
        _ => None,
    }
}

/// The type of the element that a store goes to.
fn element(array: &Expr, vt: &VarTable) -> (r: Option<TypeRef>)
    ensures
        crate::types::opt_type(r) == element_type(array@, vt@),
{
    proof {
        reveal_with_fuel(GType::view, 2);
        reveal_with_fuel(JType::view, 2);
    }
    let ty = match array {
        Expr::Local { var, .. } => vt.var_type(*var),
        other => other.type_ref(),
    };
    match ty {
        TypeRef::G(GType::Array(e)) => Some(TypeRef::G(*e)),
        TypeRef::J(JType::Array(e)) => Some(TypeRef::J(*e)),
        _ => None,
    }
}

/// The type that a store to `target` wants.
fn target_want(
    target: &Expr,
    vt: &VarTable,
    pool: &ClassPool,
    pc: &PoolClass,
    links: &Vec<SuperLink>,
) -> (r: Option<TypeRef>)
    ensures
        crate::types::opt_type(r) == wanted_type(target@, vt@, pool@, pc@, super_links(links@)),
{
    match target {
        Expr::Local { var, .. } => Some(vt.var_type(*var)),
        Expr::Field { owner, cls, name, ty, is_static } => {
            if *is_static {
                return None;
            }
            let o: Option<&Expr> = match owner {
                Some(x) => Some(&**x),
                None => None,
            };
            assert(owner_expr(opt_box(*owner)) == (match o {
                Some(x) => Some(x@),
                None => None,
            }));
            match instantiated_field_type(o, cls.as_str(), name.as_str(), pool, pc, links) {
                Some(t) => Some(t),
                None => Some(ty.clone()),
            }
        },
        Expr::ArrayIndex { array, .. } => element(array, vt),
        _ => None,
    }
}

/// The facts at position `next`; nothing is known past the end.
pub open spec fn facts_at(facts: Seq<CastFactsV>, next: nat) -> CastFactsV {
    if next < facts.len() {
        facts[next as int]
    } else {
        no_facts()
    }
}

/// The position after `next`.
pub open spec fn after(facts: Seq<CastFactsV>, next: nat) -> nat {
    if next < facts.len() {
        next + 1
    } else {
        next
    }
}

/// Writes `value` where `want` is wanted, by the facts at position `next`.
fn fix_next(
    value: &mut Expr,
    want: &TypeRef,
    pool: &ClassPool,
    facts: &Vec<CastFacts>,
    next: &mut usize,
)
    ensures
        final(value)@ == value_fixed(
            old(value)@,
            want@,
            facts_at(cast_facts(facts@), *old(next) as nat),
            pool@,
        ),
        *final(next) == after(cast_facts(facts@), *old(next) as nat),
{
    if *next < facts.len() {
        assert(cast_facts(facts@)[*next as int] == facts@[*next as int]@);
        fix_value(value, want, &facts[*next], pool);
        *next = *next + 1;
    } else {
        let none = CastFacts::unknown();
        fix_value(value, want, &none, pool);
    }
}

/// An assignment with its value written as its target wants it, and the position
/// after it.
pub open spec fn assign_fixed(
    e: ExprV,
    vt: VarTableV,
    pool: ClassPoolV,
    pc: PoolClassV,
    links: Seq<SuperLinkV>,
    facts: Seq<CastFactsV>,
    next: nat,
) -> (ExprV, nat) {
    match e {
        ExprV::Assign { target, op, value } => match wanted_type(*target, vt, pool, pc, links) {
            Some(want) => (
                ExprV::Assign {
                    target,
                    op,
                    value: Box::new(value_fixed(*value, want, facts_at(facts, next), pool)),
                },
                after(facts, next),
            ),
            None => (e, next),
        },
        _ => (e, next),
    }
}

/// An initial value written as its variable wants it, and the position after it.
pub open spec fn init_fixed(
    init: Option<ExprV>,
    want: TypeRefV,
    pool: ClassPoolV,
    facts: Seq<CastFactsV>,
    next: nat,
) -> (Option<ExprV>, nat) {
    match init {
        Some(e) => (
            Some(value_fixed(e, want, facts_at(facts, next), pool)),
            after(facts, next),
        ),
        None => (None, next),
    }
}

/// Writes the value of an assignment as its target wants it.
fn fix_assign(
    e: &mut Expr,
    vt: &VarTable,
    pool: &ClassPool,
    pc: &PoolClass,
    links: &Vec<SuperLink>,
    facts: &Vec<CastFacts>,
    next: &mut usize,
)
    ensures
        (final(e)@, *final(next) as nat) == assign_fixed(
            old(e)@,
            vt@,
            pool@,
            pc@,
            super_links(links@),
            cast_facts(facts@),
            *old(next) as nat,
        ),
{
    if let Expr::Assign { target, value, .. } = e {
        if let Some(want) = target_want(target, vt, pool, pc, links) {
            fix_next(value, &want, pool, facts, next);
        }
    }
}

/// Writes an initial value as its variable wants it.
fn fix_init(
    init: &mut Option<Expr>,
    want: &TypeRef,
    pool: &ClassPool,
    facts: &Vec<CastFacts>,
    next: &mut usize,
)
    ensures
        (opt_expr(*final(init)), *final(next) as nat) == init_fixed(
            opt_expr(*old(init)),
            want@,
            pool@,
            cast_facts(facts@),
            *old(next) as nat,
        ),
{
    if let Some(e) = init {
        fix_next(e, want, pool, facts, next);
    }
}

/// `s` with every stored value written as its target wants it, and the position after
/// it.
pub open spec fn generic_cast(
    s: StmtV,
    vt: VarTableV,
    pool: ClassPoolV,
    pc: PoolClassV,
    links: Seq<SuperLinkV>,
    facts: Seq<CastFactsV>,
    next: nat,
) -> (StmtV, nat)
    decreases s,
{
    match s {
        StmtV::Block(items) => {
            let (items1, next1) = generic_cast_seq(items, vt, pool, pc, links, facts, next);
            (StmtV::Block(items1), next1)
        },
        StmtV::ExprStmt(e) => {
            let (e1, next1) = assign_fixed(e, vt, pool, pc, links, facts, next);
            (StmtV::ExprStmt(e1), next1)
        },
        StmtV::LocalDef { var, init, is_final, force_type } => {
            let (init1, next1) = init_fixed(init, var_type(vt, var), pool, facts, next);
            (StmtV::LocalDef { var, init: init1, is_final, force_type }, next1)
        },
        StmtV::If { cond, then_stmt, else_stmt } => {
            let (then_stmt1, next1) = generic_cast(*then_stmt, vt, pool, pc, links, facts, next);
            let (else_stmt1, next2) = generic_cast_opt(
                else_stmt,
                vt,
                pool,
                pc,
                links,
                facts,
                next1,
            );
            (StmtV::If { cond, then_stmt: Box::new(then_stmt1), else_stmt: else_stmt1 }, next2)
        },
        StmtV::While { cond, body } => {
            let (body1, next1) = generic_cast(*body, vt, pool, pc, links, facts, next);
            (StmtV::While { cond, body: Box::new(body1) }, next1)
        },
        StmtV::DoWhile { body, cond } => {
            let (body1, next1) = generic_cast(*body, vt, pool, pc, links, facts, next);
            (StmtV::DoWhile { body: Box::new(body1), cond }, next1)
        },
        StmtV::For { init, cond, update, body } => {
            let (init1, next1) = generic_cast_seq(init, vt, pool, pc, links, facts, next);
            let (body1, next2) = generic_cast(*body, vt, pool, pc, links, facts, next1);
            (StmtV::For { init: init1, cond, update, body: Box::new(body1) }, next2)
        },
        StmtV::ForEach { var, iterable, is_array, body } => {
            let (body1, next1) = generic_cast(*body, vt, pool, pc, links, facts, next);
            (StmtV::ForEach { var, iterable, is_array, body: Box::new(body1) }, next1)
        },
        StmtV::Switch { selector, cases, default, on_string } => {
            let (cases1, next1) = generic_cast_cases(cases, vt, pool, pc, links, facts, next);
            let (default1, next2) = generic_cast_opt(default, vt, pool, pc, links, facts, next1);
            (StmtV::Switch { selector, cases: cases1, default: default1, on_string }, next2)
        },
        StmtV::Try { body, catches, finally } => {
            let (body1, next1) = generic_cast(*body, vt, pool, pc, links, facts, next);
            let (catches1, next2) = generic_cast_catches(
                catches,
                vt,
                pool,
                pc,
                links,
                facts,
                next1,
            );
            let (finally1, next3) = generic_cast_opt(finally, vt, pool, pc, links, facts, next2);
            (StmtV::Try { body: Box::new(body1), catches: catches1, finally: finally1 }, next3)
        },
        StmtV::TryWithResources { resources, body, catches, finally } => {
            let (resources1, next1) = generic_cast_seq(resources, vt, pool, pc, links, facts, next);
            let (body1, next2) = generic_cast(*body, vt, pool, pc, links, facts, next1);
            let (catches1, next3) = generic_cast_catches(
                catches,
                vt,
                pool,
                pc,
                links,
                facts,
                next2,
            );
            let (finally1, next4) = generic_cast_opt(finally, vt, pool, pc, links, facts, next3);
            (
                StmtV::TryWithResources {
                    resources: resources1,
                    body: Box::new(body1),
                    catches: catches1,
                    finally: finally1,
                },
                next4,
            )
        },
        StmtV::Synchronized { lock, body } => {
            let (body1, next1) = generic_cast(*body, vt, pool, pc, links, facts, next);
            (StmtV::Synchronized { lock, body: Box::new(body1) }, next1)
        },
        StmtV::Labeled { label, body } => {
            let (body1, next1) = generic_cast(*body, vt, pool, pc, links, facts, next);
            (StmtV::Labeled { label, body: Box::new(body1) }, next1)
        },
        _ => (s, next),
    }
}

/// [`generic_cast`] where there is a value.
pub open spec fn generic_cast_opt(
    o: Option<Box<StmtV>>,
    vt: VarTableV,
    pool: ClassPoolV,
    pc: PoolClassV,
    links: Seq<SuperLinkV>,
    facts: Seq<CastFactsV>,
    next: nat,
) -> (Option<Box<StmtV>>, nat)
    decreases o,
{
    match o {
        Some(x) => {
            let (y, next1) = generic_cast(*x, vt, pool, pc, links, facts, next);
            (Some(Box::new(y)), next1)
        },
        None => (None, next),
    }
}

/// [`generic_cast`] over a list, in order.
pub open spec fn generic_cast_seq(
    v: Seq<StmtV>,
    vt: VarTableV,
    pool: ClassPoolV,
    pc: PoolClassV,
    links: Seq<SuperLinkV>,
    facts: Seq<CastFactsV>,
    next: nat,
) -> (Seq<StmtV>, nat)
    decreases v,
{
    if v.len() == 0 {
        (seq![], next)
    } else {
        let (front, next1) = generic_cast_seq(v.drop_last(), vt, pool, pc, links, facts, next);
        let (last, next2) = generic_cast(v.last(), vt, pool, pc, links, facts, next1);
        (front.push(last), next2)
    }
}

/// [`generic_cast`] inside a switch arm.
pub open spec fn generic_cast_case(
    c: CaseGroupV,
    vt: VarTableV,
    pool: ClassPoolV,
    pc: PoolClassV,
    links: Seq<SuperLinkV>,
    facts: Seq<CastFactsV>,
    next: nat,
) -> (CaseGroupV, nat)
    decreases c,
{
    let (body, next9) = generic_cast_seq(c.body, vt, pool, pc, links, facts, next);
    (CaseGroupV { body, ..c }, next9)
}

/// [`generic_cast`] over a list, in order.
pub open spec fn generic_cast_cases(
    v: Seq<CaseGroupV>,
    vt: VarTableV,
    pool: ClassPoolV,
    pc: PoolClassV,
    links: Seq<SuperLinkV>,
    facts: Seq<CastFactsV>,
    next: nat,
) -> (Seq<CaseGroupV>, nat)
    decreases v,
{
    if v.len() == 0 {
        (seq![], next)
    } else {
        let (front, next1) = generic_cast_cases(v.drop_last(), vt, pool, pc, links, facts, next);
        let (last, next2) = generic_cast_case(v.last(), vt, pool, pc, links, facts, next1);
        (front.push(last), next2)
    }
}

/// [`generic_cast`] inside a catch clause.
pub open spec fn generic_cast_catch(
    c: CatchV,
    vt: VarTableV,
    pool: ClassPoolV,
    pc: PoolClassV,
    links: Seq<SuperLinkV>,
    facts: Seq<CastFactsV>,
    next: nat,
) -> (CatchV, nat)
    decreases c,
{
    let (body, next9) = generic_cast(*c.body, vt, pool, pc, links, facts, next);
    (CatchV { body: Box::new(body), ..c }, next9)
}

/// [`generic_cast`] over a list, in order.
pub open spec fn generic_cast_catches(
    v: Seq<CatchV>,
    vt: VarTableV,
    pool: ClassPoolV,
    pc: PoolClassV,
    links: Seq<SuperLinkV>,
    facts: Seq<CastFactsV>,
    next: nat,
) -> (Seq<CatchV>, nat)
    decreases v,
{
    if v.len() == 0 {
        (seq![], next)
    } else {
        let (front, next1) = generic_cast_catches(v.drop_last(), vt, pool, pc, links, facts, next);
        let (last, next2) = generic_cast_catch(v.last(), vt, pool, pc, links, facts, next1);
        (front.push(last), next2)
    }
}

/// Writes every stored value as its target wants it. `facts` holds what is known of
/// each such value, in the order of [`cast_sites`]; `next` counts them.
pub fn cast_generic_locals(
    s: &mut Stmt,
    vt: &VarTable,
    pool: &ClassPool,
    pc: &PoolClass,
    links: &Vec<SuperLink>,
    facts: &Vec<CastFacts>,
    next: &mut usize,
)
    ensures
        final(s)@ == generic_cast(
            old(s)@,
            vt@,
            pool@,
            pc@,
            super_links(links@),
            cast_facts(facts@),
            (*old(next) as nat),
        ).0,
        (*final(next) as nat) == generic_cast(
            old(s)@,
            vt@,
            pool@,
            pc@,
            super_links(links@),
            cast_facts(facts@),
            (*old(next) as nat),
        ).1,
    decreases *old(s),
{
    match s {
        Stmt::Block(items) => { cast_generic_locals_vec(items, vt, pool, pc, links, facts, next); },
        Stmt::ExprStmt(e) => fix_assign(e, vt, pool, pc, links, facts, next),
        Stmt::LocalDef { var, init, .. } => {
            let want = vt.var_type(*var);
            fix_init(init, &want, pool, facts, next);
        },
        Stmt::If { then_stmt, else_stmt, .. } => {
            cast_generic_locals(then_stmt, vt, pool, pc, links, facts, next);
            cast_generic_locals_opt(else_stmt, vt, pool, pc, links, facts, next);
        },
        Stmt::While { body, .. } => {
            cast_generic_locals(body, vt, pool, pc, links, facts, next);
        },
        Stmt::DoWhile { body, .. } => {
            cast_generic_locals(body, vt, pool, pc, links, facts, next);
        },
        Stmt::For { init, body, .. } => {
            cast_generic_locals_vec(init, vt, pool, pc, links, facts, next);
            cast_generic_locals(body, vt, pool, pc, links, facts, next);
        },
        Stmt::ForEach { body, .. } => {
            cast_generic_locals(body, vt, pool, pc, links, facts, next);
        },
        Stmt::Switch { cases, default, .. } => {
            cast_generic_locals_cases(cases, vt, pool, pc, links, facts, next);
            cast_generic_locals_opt(default, vt, pool, pc, links, facts, next);
        },
        Stmt::Try { body, catches, finally } => {
            cast_generic_locals(body, vt, pool, pc, links, facts, next);
            cast_generic_locals_catches(catches, vt, pool, pc, links, facts, next);
            cast_generic_locals_opt(finally, vt, pool, pc, links, facts, next);
        },
        Stmt::TryWithResources { resources, body, catches, finally } => {
            cast_generic_locals_vec(resources, vt, pool, pc, links, facts, next);
            cast_generic_locals(body, vt, pool, pc, links, facts, next);
            cast_generic_locals_catches(catches, vt, pool, pc, links, facts, next);
            cast_generic_locals_opt(finally, vt, pool, pc, links, facts, next);
        },
        Stmt::Synchronized { body, .. } => {
            cast_generic_locals(body, vt, pool, pc, links, facts, next);
        },
        Stmt::Labeled { body, .. } => {
            cast_generic_locals(body, vt, pool, pc, links, facts, next);
        },
        _ => {},
    }
}

/// `cast_generic_locals` where there is a value.
pub fn cast_generic_locals_opt(
    o: &mut Option<Box<Stmt>>,
    vt: &VarTable,
    pool: &ClassPool,
    pc: &PoolClass,
    links: &Vec<SuperLink>,
    facts: &Vec<CastFacts>,
    next: &mut usize,
)
    ensures
        opt_stmt(*final(o)) == generic_cast_opt(
            opt_stmt(*old(o)),
            vt@,
            pool@,
            pc@,
            super_links(links@),
            cast_facts(facts@),
            (*old(next) as nat),
        ).0,
        (*final(next) as nat) == generic_cast_opt(
            opt_stmt(*old(o)),
            vt@,
            pool@,
            pc@,
            super_links(links@),
            cast_facts(facts@),
            (*old(next) as nat),
        ).1,
    decreases *old(o),
{
    if let Some(x) = o {
        cast_generic_locals(x, vt, pool, pc, links, facts, next);
    }
}

/// `cast_generic_locals` over a list, in order.
#[verifier::loop_isolation(false)]
pub fn cast_generic_locals_vec(
    v: &mut Vec<Stmt>,
    vt: &VarTable,
    pool: &ClassPool,
    pc: &PoolClass,
    links: &Vec<SuperLink>,
    facts: &Vec<CastFacts>,
    next: &mut usize,
)
    ensures
        stmts(final(v)@) == generic_cast_seq(
            stmts(old(v)@),
            vt@,
            pool@,
            pc@,
            super_links(links@),
            cast_facts(facts@),
            (*old(next) as nat),
        ).0,
        (*final(next) as nat) == generic_cast_seq(
            stmts(old(v)@),
            vt@,
            pool@,
            pc@,
            super_links(links@),
            cast_facts(facts@),
            (*old(next) as nat),
        ).1,
    decreases *old(v),
{
    let mut i: usize = 0;
    assert(stmts(v@.take(0)) =~= seq![]);
    while i < v.len()
        invariant
            i <= v.len(),
            v.len() == old(v).len(),
            stmts(v@.take(i as int)) == generic_cast_seq(
                stmts(old(v)@).take(i as int),
                vt@,
                pool@,
                pc@,
                super_links(links@),
                cast_facts(facts@),
                (*old(next) as nat),
            ).0,
            (*next as nat) == generic_cast_seq(
                stmts(old(v)@).take(i as int),
                vt@,
                pool@,
                pc@,
                super_links(links@),
                cast_facts(facts@),
                (*old(next) as nat),
            ).1,
            forall|j: int| i <= j < v.len() ==> #[trigger] v@[j] == old(v)@[j],
        decreases v.len() - i,
    {
        let ghost before = stmts(v@.take(i as int));
        let ghost done = stmts(old(v)@).take(i + 1);
        assert(done.drop_last() =~= stmts(old(v)@).take(i as int));
        assert(done.last() == v@[i as int]@);
        assert(decreases_to!(*old(v) => v@[i as int]));
        cast_generic_locals(&mut v[i], vt, pool, pc, links, facts, next);
        i += 1;
        assert(stmts(v@.take(i as int)) =~= before.push(v@[i - 1]@));
    }
    assert(v@.take(i as int) =~= v@);
    assert(stmts(old(v)@).take(i as int) =~= stmts(old(v)@));
}

/// `cast_generic_locals` inside a switch arm.
pub fn cast_generic_locals_case(
    c: &mut CaseGroup,
    vt: &VarTable,
    pool: &ClassPool,
    pc: &PoolClass,
    links: &Vec<SuperLink>,
    facts: &Vec<CastFacts>,
    next: &mut usize,
)
    ensures
        final(c)@ == generic_cast_case(
            old(c)@,
            vt@,
            pool@,
            pc@,
            super_links(links@),
            cast_facts(facts@),
            (*old(next) as nat),
        ).0,
        (*final(next) as nat) == generic_cast_case(
            old(c)@,
            vt@,
            pool@,
            pc@,
            super_links(links@),
            cast_facts(facts@),
            (*old(next) as nat),
        ).1,
    decreases *old(c),
{
    cast_generic_locals_vec(&mut c.body, vt, pool, pc, links, facts, next);
}

/// `cast_generic_locals` over a list, in order.
#[verifier::loop_isolation(false)]
pub fn cast_generic_locals_cases(
    v: &mut Vec<CaseGroup>,
    vt: &VarTable,
    pool: &ClassPool,
    pc: &PoolClass,
    links: &Vec<SuperLink>,
    facts: &Vec<CastFacts>,
    next: &mut usize,
)
    ensures
        case_groups(final(v)@) == generic_cast_cases(
            case_groups(old(v)@),
            vt@,
            pool@,
            pc@,
            super_links(links@),
            cast_facts(facts@),
            (*old(next) as nat),
        ).0,
        (*final(next) as nat) == generic_cast_cases(
            case_groups(old(v)@),
            vt@,
            pool@,
            pc@,
            super_links(links@),
            cast_facts(facts@),
            (*old(next) as nat),
        ).1,
    decreases *old(v),
{
    let mut i: usize = 0;
    assert(case_groups(v@.take(0)) =~= seq![]);
    while i < v.len()
        invariant
            i <= v.len(),
            v.len() == old(v).len(),
            case_groups(v@.take(i as int)) == generic_cast_cases(
                case_groups(old(v)@).take(i as int),
                vt@,
                pool@,
                pc@,
                super_links(links@),
                cast_facts(facts@),
                (*old(next) as nat),
            ).0,
            (*next as nat) == generic_cast_cases(
                case_groups(old(v)@).take(i as int),
                vt@,
                pool@,
                pc@,
                super_links(links@),
                cast_facts(facts@),
                (*old(next) as nat),
            ).1,
            forall|j: int| i <= j < v.len() ==> #[trigger] v@[j] == old(v)@[j],
        decreases v.len() - i,
    {
        let ghost before = case_groups(v@.take(i as int));
        let ghost done = case_groups(old(v)@).take(i + 1);
        assert(done.drop_last() =~= case_groups(old(v)@).take(i as int));
        assert(done.last() == v@[i as int]@);
        assert(decreases_to!(*old(v) => v@[i as int]));
        cast_generic_locals_case(&mut v[i], vt, pool, pc, links, facts, next);
        i += 1;
        assert(case_groups(v@.take(i as int)) =~= before.push(v@[i - 1]@));
    }
    assert(v@.take(i as int) =~= v@);
    assert(case_groups(old(v)@).take(i as int) =~= case_groups(old(v)@));
}

/// `cast_generic_locals` inside a catch clause.
pub fn cast_generic_locals_catch(
    c: &mut Catch,
    vt: &VarTable,
    pool: &ClassPool,
    pc: &PoolClass,
    links: &Vec<SuperLink>,
    facts: &Vec<CastFacts>,
    next: &mut usize,
)
    ensures
        final(c)@ == generic_cast_catch(
            old(c)@,
            vt@,
            pool@,
            pc@,
            super_links(links@),
            cast_facts(facts@),
            (*old(next) as nat),
        ).0,
        (*final(next) as nat) == generic_cast_catch(
            old(c)@,
            vt@,
            pool@,
            pc@,
            super_links(links@),
            cast_facts(facts@),
            (*old(next) as nat),
        ).1,
    decreases *old(c),
{
    cast_generic_locals(&mut c.body, vt, pool, pc, links, facts, next);
}

/// `cast_generic_locals` over a list, in order.
#[verifier::loop_isolation(false)]
pub fn cast_generic_locals_catches(
    v: &mut Vec<Catch>,
    vt: &VarTable,
    pool: &ClassPool,
    pc: &PoolClass,
    links: &Vec<SuperLink>,
    facts: &Vec<CastFacts>,
    next: &mut usize,
)
    ensures
        catch_list(final(v)@) == generic_cast_catches(
            catch_list(old(v)@),
            vt@,
            pool@,
            pc@,
            super_links(links@),
            cast_facts(facts@),
            (*old(next) as nat),
        ).0,
        (*final(next) as nat) == generic_cast_catches(
            catch_list(old(v)@),
            vt@,
            pool@,
            pc@,
            super_links(links@),
            cast_facts(facts@),
            (*old(next) as nat),
        ).1,
    decreases *old(v),
{
    let mut i: usize = 0;
    assert(catch_list(v@.take(0)) =~= seq![]);
    while i < v.len()
        invariant
            i <= v.len(),
            v.len() == old(v).len(),
            catch_list(v@.take(i as int)) == generic_cast_catches(
                catch_list(old(v)@).take(i as int),
                vt@,
                pool@,
                pc@,
                super_links(links@),
                cast_facts(facts@),
                (*old(next) as nat),
            ).0,
            (*next as nat) == generic_cast_catches(
                catch_list(old(v)@).take(i as int),
                vt@,
                pool@,
                pc@,
                super_links(links@),
                cast_facts(facts@),
                (*old(next) as nat),
            ).1,
            forall|j: int| i <= j < v.len() ==> #[trigger] v@[j] == old(v)@[j],
        decreases v.len() - i,
    {
        let ghost before = catch_list(v@.take(i as int));
        let ghost done = catch_list(old(v)@).take(i + 1);
        assert(done.drop_last() =~= catch_list(old(v)@).take(i as int));
        assert(done.last() == v@[i as int]@);
        assert(decreases_to!(*old(v) => v@[i as int]));
        cast_generic_locals_catch(&mut v[i], vt, pool, pc, links, facts, next);
        i += 1;
        assert(catch_list(v@.take(i as int)) =~= before.push(v@[i - 1]@));
    }
    assert(v@.take(i as int) =~= v@);
    assert(catch_list(old(v)@).take(i as int) =~= catch_list(old(v)@));
}

/// A stored value and the type that its target wants.
pub open spec fn site_pairs(v: Seq<(Expr, TypeRef)>) -> Seq<(ExprV, TypeRefV)> {
    Seq::new(v.len(), |i: int| (v[i].0@, v[i].1@))
}

/// The site in an assignment.
pub open spec fn assign_site(
    e: ExprV,
    vt: VarTableV,
    pool: ClassPoolV,
    pc: PoolClassV,
    links: Seq<SuperLinkV>,
) -> Seq<(ExprV, TypeRefV)> {
    match e {
        ExprV::Assign { target, value, .. } => match wanted_type(*target, vt, pool, pc, links) {
            Some(want) => seq![(*value, want)],
            None => seq![],
        },
        _ => seq![],
    }
}

/// The site in a declaration.
pub open spec fn init_site(init: Option<ExprV>, want: TypeRefV) -> Seq<(ExprV, TypeRefV)> {
    match init {
        Some(e) => seq![(e, want)],
        None => seq![],
    }
}

/// Adds a site to `out`.
fn push_site(value: &Expr, want: TypeRef, out: &mut Vec<(Expr, TypeRef)>)
    ensures
        site_pairs(final(out)@) == site_pairs(old(out)@) + seq![(value@, want@)],
{
    out.push((clone_expr(value), want));
    assert(site_pairs(out@) =~= site_pairs(old(out)@) + seq![(value@, want@)]);
}

/// Adds the site in an assignment to `out`.
fn push_assign_site(
    e: &Expr,
    vt: &VarTable,
    pool: &ClassPool,
    pc: &PoolClass,
    links: &Vec<SuperLink>,
    out: &mut Vec<(Expr, TypeRef)>,
)
    ensures
        site_pairs(final(out)@) == site_pairs(old(out)@) + assign_site(
            e@,
            vt@,
            pool@,
            pc@,
            super_links(links@),
        ),
{
    if let Expr::Assign { target, value, .. } = e {
        if let Some(want) = target_want(target, vt, pool, pc, links) {
            push_site(value, want, out);
            return ;
        }
    }
    assert(site_pairs(out@) =~= site_pairs(old(out)@) + seq![]);
}

/// Adds the site in a declaration to `out`.
fn push_init_site(init: &Option<Expr>, want: TypeRef, out: &mut Vec<(Expr, TypeRef)>)
    ensures
        site_pairs(final(out)@) == site_pairs(old(out)@) + init_site(opt_expr(*init), want@),
{
    if let Some(e) = init {
        push_site(e, want, out);
    } else {
        assert(site_pairs(out@) =~= site_pairs(old(out)@) + seq![]);
    }
}

/// The stored values of `s`, each with the type that its target wants, in order.
pub open spec fn sites(
    s: StmtV,
    vt: VarTableV,
    pool: ClassPoolV,
    pc: PoolClassV,
    links: Seq<SuperLinkV>,
) -> Seq<(ExprV, TypeRefV)>
    decreases s,
{
    match s {
        StmtV::Block(items) => sites_seq(items, vt, pool, pc, links),
        StmtV::ExprStmt(e) => assign_site(e, vt, pool, pc, links),
        StmtV::LocalDef { var, init, .. } => init_site(init, var_type(vt, var)),
        StmtV::If { then_stmt, else_stmt, .. } => sites(*then_stmt, vt, pool, pc, links)
            + sites_opt(else_stmt, vt, pool, pc, links),
        StmtV::While { body, .. } => sites(*body, vt, pool, pc, links),
        StmtV::DoWhile { body, .. } => sites(*body, vt, pool, pc, links),
        StmtV::For { init, body, .. } => sites_seq(init, vt, pool, pc, links)
            + sites(*body, vt, pool, pc, links),
        StmtV::ForEach { body, .. } => sites(*body, vt, pool, pc, links),
        StmtV::Switch { cases, default, .. } => sites_cases(cases, vt, pool, pc, links)
            + sites_opt(default, vt, pool, pc, links),
        StmtV::Try { body, catches, finally } => sites(*body, vt, pool, pc, links)
            + sites_catches(catches, vt, pool, pc, links) + sites_opt(finally, vt, pool, pc, links),
        StmtV::TryWithResources { resources, body, catches, finally } => sites_seq(
            resources,
            vt,
            pool,
            pc,
            links,
        )
            + sites(*body, vt, pool, pc, links) + sites_catches(catches, vt, pool, pc, links)
            + sites_opt(finally, vt, pool, pc, links),
        StmtV::Synchronized { body, .. } => sites(*body, vt, pool, pc, links),
        StmtV::Labeled { body, .. } => sites(*body, vt, pool, pc, links),
        _ => seq![],
    }
}

/// [`sites`] where there is a value.
pub open spec fn sites_opt(
    o: Option<Box<StmtV>>,
    vt: VarTableV,
    pool: ClassPoolV,
    pc: PoolClassV,
    links: Seq<SuperLinkV>,
) -> Seq<(ExprV, TypeRefV)>
    decreases o,
{
    match o {
        Some(x) => sites(*x, vt, pool, pc, links),
        None => seq![],
    }
}

/// [`sites`] over a list.
pub open spec fn sites_seq(
    l: Seq<StmtV>,
    vt: VarTableV,
    pool: ClassPoolV,
    pc: PoolClassV,
    links: Seq<SuperLinkV>,
) -> Seq<(ExprV, TypeRefV)>
    decreases l,
{
    if l.len() == 0 {
        seq![]
    } else {
        sites_seq(l.drop_last(), vt, pool, pc, links) + sites(l.last(), vt, pool, pc, links)
    }
}

/// [`sites`] inside a switch arm.
pub open spec fn sites_case(
    c: CaseGroupV,
    vt: VarTableV,
    pool: ClassPoolV,
    pc: PoolClassV,
    links: Seq<SuperLinkV>,
) -> Seq<(ExprV, TypeRefV)>
    decreases c,
{
    sites_seq(c.body, vt, pool, pc, links)
}

/// [`sites`] over a list.
pub open spec fn sites_cases(
    l: Seq<CaseGroupV>,
    vt: VarTableV,
    pool: ClassPoolV,
    pc: PoolClassV,
    links: Seq<SuperLinkV>,
) -> Seq<(ExprV, TypeRefV)>
    decreases l,
{
    if l.len() == 0 {
        seq![]
    } else {
        sites_cases(l.drop_last(), vt, pool, pc, links) + sites_case(l.last(), vt, pool, pc, links)
    }
}

/// [`sites`] inside a catch clause.
pub open spec fn sites_catch(
    c: CatchV,
    vt: VarTableV,
    pool: ClassPoolV,
    pc: PoolClassV,
    links: Seq<SuperLinkV>,
) -> Seq<(ExprV, TypeRefV)>
    decreases c,
{
    sites(*c.body, vt, pool, pc, links)
}

/// [`sites`] over a list.
pub open spec fn sites_catches(
    l: Seq<CatchV>,
    vt: VarTableV,
    pool: ClassPoolV,
    pc: PoolClassV,
    links: Seq<SuperLinkV>,
) -> Seq<(ExprV, TypeRefV)>
    decreases l,
{
    if l.len() == 0 {
        seq![]
    } else {
        sites_catches(l.drop_last(), vt, pool, pc, links)
            + sites_catch(l.last(), vt, pool, pc, links)
    }
}

/// Adds the stored values of `s`, each with the type that its target wants, to `out`.
#[verifier::spinoff_prover]
#[verifier::rlimit(60)]
pub fn cast_sites(
    s: &Stmt,
    vt: &VarTable,
    pool: &ClassPool,
    pc: &PoolClass,
    links: &Vec<SuperLink>,
    out: &mut Vec<(Expr, TypeRef)>,
)
    ensures
        site_pairs(final(out)@) == site_pairs(old(out)@)
            + sites(s@, vt@, pool@, pc@, super_links(links@)),
    decreases s,
{
    match s {
        Stmt::Block(items) => { cast_sites_vec(items, vt, pool, pc, links, out); },
        Stmt::ExprStmt(e) => push_assign_site(e, vt, pool, pc, links, out),
        Stmt::LocalDef { var, init, .. } => { push_init_site(init, vt.var_type(*var), out); },
        Stmt::If { then_stmt, else_stmt, .. } => {
            cast_sites(then_stmt, vt, pool, pc, links, out);
            cast_sites_opt(else_stmt, vt, pool, pc, links, out);
            assert(
                site_pairs(out@) =~= site_pairs(old(out)@)
                    + sites(s@, vt@, pool@, pc@, super_links(links@))
            );
        },
        Stmt::While { body, .. } => { cast_sites(body, vt, pool, pc, links, out); },
        Stmt::DoWhile { body, .. } => { cast_sites(body, vt, pool, pc, links, out); },
        Stmt::For { init, body, .. } => {
            cast_sites_vec(init, vt, pool, pc, links, out);
            cast_sites(body, vt, pool, pc, links, out);
            assert(
                site_pairs(out@) =~= site_pairs(old(out)@)
                    + sites(s@, vt@, pool@, pc@, super_links(links@))
            );
        },
        Stmt::ForEach { body, .. } => { cast_sites(body, vt, pool, pc, links, out); },
        Stmt::Switch { cases, default, .. } => {
            cast_sites_cases(cases, vt, pool, pc, links, out);
            cast_sites_opt(default, vt, pool, pc, links, out);
            assert(
                site_pairs(out@) =~= site_pairs(old(out)@)
                    + sites(s@, vt@, pool@, pc@, super_links(links@))
            );
        },
        Stmt::Try { body, catches, finally } => {
            cast_sites(body, vt, pool, pc, links, out);
            cast_sites_catches(catches, vt, pool, pc, links, out);
            cast_sites_opt(finally, vt, pool, pc, links, out);
            assert(
                site_pairs(out@) =~= site_pairs(old(out)@)
                    + sites(s@, vt@, pool@, pc@, super_links(links@))
            );
        },
        Stmt::TryWithResources { resources, body, catches, finally } => {
            cast_sites_vec(resources, vt, pool, pc, links, out);
            cast_sites(body, vt, pool, pc, links, out);
            cast_sites_catches(catches, vt, pool, pc, links, out);
            cast_sites_opt(finally, vt, pool, pc, links, out);
            assert(
                site_pairs(out@) =~= site_pairs(old(out)@)
                    + sites(s@, vt@, pool@, pc@, super_links(links@))
            );
        },
        Stmt::Synchronized { body, .. } => { cast_sites(body, vt, pool, pc, links, out); },
        Stmt::Labeled { body, .. } => { cast_sites(body, vt, pool, pc, links, out); },
        _ => {},
    }
}

/// `cast_sites` where there is a value.
pub fn cast_sites_opt(
    o: &Option<Box<Stmt>>,
    vt: &VarTable,
    pool: &ClassPool,
    pc: &PoolClass,
    links: &Vec<SuperLink>,
    out: &mut Vec<(Expr, TypeRef)>,
)
    ensures
        site_pairs(final(out)@) == site_pairs(old(out)@)
            + sites_opt(opt_stmt(*o), vt@, pool@, pc@, super_links(links@)),
    decreases o,
{
    if let Some(x) = o {
        cast_sites(x, vt, pool, pc, links, out);
    }
}

/// `cast_sites` over a list.
#[verifier::loop_isolation(false)]
pub fn cast_sites_vec(
    l: &Vec<Stmt>,
    vt: &VarTable,
    pool: &ClassPool,
    pc: &PoolClass,
    links: &Vec<SuperLink>,
    out: &mut Vec<(Expr, TypeRef)>,
)
    ensures
        site_pairs(final(out)@) == site_pairs(old(out)@)
            + sites_seq(stmts(l@), vt@, pool@, pc@, super_links(links@)),
    decreases l,
{
    let ghost all = stmts(l@);
    let mut i: usize = 0;
    while i < l.len()
        invariant
            i <= l.len(),
            site_pairs(out@) == site_pairs(old(out)@)
                + sites_seq(all.take(i as int), vt@, pool@, pc@, super_links(links@)),
        decreases l.len() - i,
    {
        assert(decreases_to!(l => l@[i as int]));
        assert(all.take(i + 1).drop_last() =~= all.take(i as int));
        cast_sites(&l[i], vt, pool, pc, links, out);
        i += 1;
        assert(
            site_pairs(out@) =~= site_pairs(old(out)@)
                + sites_seq(all.take(i as int), vt@, pool@, pc@, super_links(links@))
        );
    }
    assert(all.take(i as int) =~= all);
}

/// `cast_sites` inside a switch arm.
pub fn cast_sites_case(
    c: &CaseGroup,
    vt: &VarTable,
    pool: &ClassPool,
    pc: &PoolClass,
    links: &Vec<SuperLink>,
    out: &mut Vec<(Expr, TypeRef)>,
)
    ensures
        site_pairs(final(out)@) == site_pairs(old(out)@)
            + sites_case(c@, vt@, pool@, pc@, super_links(links@)),
    decreases c,
{
    cast_sites_vec(&c.body, vt, pool, pc, links, out);
}

/// `cast_sites` over a list.
#[verifier::loop_isolation(false)]
pub fn cast_sites_cases(
    l: &Vec<CaseGroup>,
    vt: &VarTable,
    pool: &ClassPool,
    pc: &PoolClass,
    links: &Vec<SuperLink>,
    out: &mut Vec<(Expr, TypeRef)>,
)
    ensures
        site_pairs(final(out)@) == site_pairs(old(out)@)
            + sites_cases(case_groups(l@), vt@, pool@, pc@, super_links(links@)),
    decreases l,
{
    let ghost all = case_groups(l@);
    let mut i: usize = 0;
    while i < l.len()
        invariant
            i <= l.len(),
            site_pairs(out@) == site_pairs(old(out)@)
                + sites_cases(all.take(i as int), vt@, pool@, pc@, super_links(links@)),
        decreases l.len() - i,
    {
        assert(decreases_to!(l => l@[i as int]));
        assert(all.take(i + 1).drop_last() =~= all.take(i as int));
        cast_sites_case(&l[i], vt, pool, pc, links, out);
        i += 1;
        assert(
            site_pairs(out@) =~= site_pairs(old(out)@)
                + sites_cases(all.take(i as int), vt@, pool@, pc@, super_links(links@))
        );
    }
    assert(all.take(i as int) =~= all);
}

/// `cast_sites` inside a catch clause.
pub fn cast_sites_catch(
    c: &Catch,
    vt: &VarTable,
    pool: &ClassPool,
    pc: &PoolClass,
    links: &Vec<SuperLink>,
    out: &mut Vec<(Expr, TypeRef)>,
)
    ensures
        site_pairs(final(out)@) == site_pairs(old(out)@)
            + sites_catch(c@, vt@, pool@, pc@, super_links(links@)),
    decreases c,
{
    cast_sites(&c.body, vt, pool, pc, links, out);
}

/// `cast_sites` over a list.
#[verifier::loop_isolation(false)]
pub fn cast_sites_catches(
    l: &Vec<Catch>,
    vt: &VarTable,
    pool: &ClassPool,
    pc: &PoolClass,
    links: &Vec<SuperLink>,
    out: &mut Vec<(Expr, TypeRef)>,
)
    ensures
        site_pairs(final(out)@) == site_pairs(old(out)@)
            + sites_catches(catch_list(l@), vt@, pool@, pc@, super_links(links@)),
    decreases l,
{
    let ghost all = catch_list(l@);
    let mut i: usize = 0;
    while i < l.len()
        invariant
            i <= l.len(),
            site_pairs(out@) == site_pairs(old(out)@)
                + sites_catches(all.take(i as int), vt@, pool@, pc@, super_links(links@)),
        decreases l.len() - i,
    {
        assert(decreases_to!(l => l@[i as int]));
        assert(all.take(i + 1).drop_last() =~= all.take(i as int));
        cast_sites_catch(&l[i], vt, pool, pc, links, out);
        i += 1;
        assert(
            site_pairs(out@) =~= site_pairs(old(out)@)
                + sites_catches(all.take(i as int), vt@, pool@, pc@, super_links(links@))
        );
    }
    assert(all.take(i as int) =~= all);
}

/// The position after `n` more sites.
pub open spec fn advanced(facts: Seq<CastFactsV>, next: nat, n: nat) -> nat {
    if next >= facts.len() {
        next
    } else if next + n <= facts.len() {
        next + n
    } else {
        facts.len()
    }
}

/// A walk uses up one set of facts for each site.
proof fn lemma_sites(
    s: StmtV,
    vt: VarTableV,
    pool: ClassPoolV,
    pc: PoolClassV,
    links: Seq<SuperLinkV>,
    facts: Seq<CastFactsV>,
    next: nat,
)
    ensures
        generic_cast(s, vt, pool, pc, links, facts, next).1 == advanced(
            facts,
            next,
            sites(s, vt, pool, pc, links).len(),
        ),
    decreases s,
{
    match s {
        StmtV::Block(items) => { lemma_sites_seq(items, vt, pool, pc, links, facts, next);  },
        StmtV::If { then_stmt, else_stmt, .. } => {
            lemma_sites(*then_stmt, vt, pool, pc, links, facts, next);
            let next1 = generic_cast(*then_stmt, vt, pool, pc, links, facts, next).1;
            lemma_sites_opt(else_stmt, vt, pool, pc, links, facts, next1);
        },
        StmtV::While { body, .. } => { lemma_sites(*body, vt, pool, pc, links, facts, next);  },
        StmtV::DoWhile { body, .. } => { lemma_sites(*body, vt, pool, pc, links, facts, next);  },
        StmtV::For { init, body, .. } => {
            lemma_sites_seq(init, vt, pool, pc, links, facts, next);
            let next1 = generic_cast_seq(init, vt, pool, pc, links, facts, next).1;
            lemma_sites(*body, vt, pool, pc, links, facts, next1);
        },
        StmtV::ForEach { body, .. } => { lemma_sites(*body, vt, pool, pc, links, facts, next);  },
        StmtV::Switch { cases, default, .. } => {
            lemma_sites_cases(cases, vt, pool, pc, links, facts, next);
            let next1 = generic_cast_cases(cases, vt, pool, pc, links, facts, next).1;
            lemma_sites_opt(default, vt, pool, pc, links, facts, next1);
        },
        StmtV::Try { body, catches, finally } => {
            lemma_sites(*body, vt, pool, pc, links, facts, next);
            let next1 = generic_cast(*body, vt, pool, pc, links, facts, next).1;
            lemma_sites_catches(catches, vt, pool, pc, links, facts, next1);
            let next2 = generic_cast_catches(catches, vt, pool, pc, links, facts, next1).1;
            lemma_sites_opt(finally, vt, pool, pc, links, facts, next2);
        },
        StmtV::TryWithResources { resources, body, catches, finally } => {
            lemma_sites_seq(resources, vt, pool, pc, links, facts, next);
            let next1 = generic_cast_seq(resources, vt, pool, pc, links, facts, next).1;
            lemma_sites(*body, vt, pool, pc, links, facts, next1);
            let next2 = generic_cast(*body, vt, pool, pc, links, facts, next1).1;
            lemma_sites_catches(catches, vt, pool, pc, links, facts, next2);
            let next3 = generic_cast_catches(catches, vt, pool, pc, links, facts, next2).1;
            lemma_sites_opt(finally, vt, pool, pc, links, facts, next3);
        },
        StmtV::Synchronized { body, .. } => {
            lemma_sites(*body, vt, pool, pc, links, facts, next);
        },
        StmtV::Labeled { body, .. } => { lemma_sites(*body, vt, pool, pc, links, facts, next);  },
        _ => {},
    }
}

/// [`lemma_sites`] where there is a statement.
proof fn lemma_sites_opt(
    o: Option<Box<StmtV>>,
    vt: VarTableV,
    pool: ClassPoolV,
    pc: PoolClassV,
    links: Seq<SuperLinkV>,
    facts: Seq<CastFactsV>,
    next: nat,
)
    ensures
        generic_cast_opt(o, vt, pool, pc, links, facts, next).1 == advanced(
            facts,
            next,
            sites_opt(o, vt, pool, pc, links).len(),
        ),
    decreases o,
{
    if let Some(x) = o {
        lemma_sites(*x, vt, pool, pc, links, facts, next);
    }
}

/// [`lemma_sites`] over a list.
proof fn lemma_sites_seq(
    v: Seq<StmtV>,
    vt: VarTableV,
    pool: ClassPoolV,
    pc: PoolClassV,
    links: Seq<SuperLinkV>,
    facts: Seq<CastFactsV>,
    next: nat,
)
    ensures
        generic_cast_seq(v, vt, pool, pc, links, facts, next).1 == advanced(
            facts,
            next,
            sites_seq(v, vt, pool, pc, links).len(),
        ),
    decreases v,
{
    if v.len() > 0 {
        lemma_sites_seq(v.drop_last(), vt, pool, pc, links, facts, next);
        let next1 = generic_cast_seq(v.drop_last(), vt, pool, pc, links, facts, next).1;
        lemma_sites(v.last(), vt, pool, pc, links, facts, next1);
    }
}

/// [`lemma_sites`] over switch arms.
proof fn lemma_sites_cases(
    v: Seq<CaseGroupV>,
    vt: VarTableV,
    pool: ClassPoolV,
    pc: PoolClassV,
    links: Seq<SuperLinkV>,
    facts: Seq<CastFactsV>,
    next: nat,
)
    ensures
        generic_cast_cases(v, vt, pool, pc, links, facts, next).1 == advanced(
            facts,
            next,
            sites_cases(v, vt, pool, pc, links).len(),
        ),
    decreases v,
{
    if v.len() > 0 {
        lemma_sites_cases(v.drop_last(), vt, pool, pc, links, facts, next);
        let next1 = generic_cast_cases(v.drop_last(), vt, pool, pc, links, facts, next).1;
        lemma_sites_case(v.last(), vt, pool, pc, links, facts, next1);
    }
}

/// [`lemma_sites`] inside a switch arm.
proof fn lemma_sites_case(
    c: CaseGroupV,
    vt: VarTableV,
    pool: ClassPoolV,
    pc: PoolClassV,
    links: Seq<SuperLinkV>,
    facts: Seq<CastFactsV>,
    next: nat,
)
    ensures
        generic_cast_case(c, vt, pool, pc, links, facts, next).1 == advanced(
            facts,
            next,
            sites_case(c, vt, pool, pc, links).len(),
        ),
    decreases c,
{
    lemma_sites_seq(c.body, vt, pool, pc, links, facts, next);
}

/// [`lemma_sites`] over catch clauses.
proof fn lemma_sites_catches(
    v: Seq<CatchV>,
    vt: VarTableV,
    pool: ClassPoolV,
    pc: PoolClassV,
    links: Seq<SuperLinkV>,
    facts: Seq<CastFactsV>,
    next: nat,
)
    ensures
        generic_cast_catches(v, vt, pool, pc, links, facts, next).1 == advanced(
            facts,
            next,
            sites_catches(v, vt, pool, pc, links).len(),
        ),
    decreases v,
{
    if v.len() > 0 {
        lemma_sites_catches(v.drop_last(), vt, pool, pc, links, facts, next);
        let next1 = generic_cast_catches(v.drop_last(), vt, pool, pc, links, facts, next).1;
        lemma_sites_catch(v.last(), vt, pool, pc, links, facts, next1);
    }
}

/// [`lemma_sites`] inside a catch clause.
proof fn lemma_sites_catch(
    c: CatchV,
    vt: VarTableV,
    pool: ClassPoolV,
    pc: PoolClassV,
    links: Seq<SuperLinkV>,
    facts: Seq<CastFactsV>,
    next: nat,
)
    ensures
        generic_cast_catch(c, vt, pool, pc, links, facts, next).1 == advanced(
            facts,
            next,
            sites_catch(c, vt, pool, pc, links).len(),
        ),
    decreases c,
{
    lemma_sites(*c.body, vt, pool, pc, links, facts, next);
}

/// The facts that belong to the `i`-th site are those at position `i`: a walk from the
/// start uses up as many as there are sites.
pub proof fn law_facts_match_sites(
    s: StmtV,
    vt: VarTableV,
    pool: ClassPoolV,
    pc: PoolClassV,
    links: Seq<SuperLinkV>,
    facts: Seq<CastFactsV>,
)
    requires
        facts.len() >= sites(s, vt, pool, pc, links).len(),
    ensures
        generic_cast(s, vt, pool, pc, links, facts, 0).1 == sites(s, vt, pool, pc, links).len(),
{
    lemma_sites(s, vt, pool, pc, links, facts, 0);
}

} // verus!
