//! Method calls, fields and dynamic call sites.
use crate::captures::after_dollar;
use crate::classes::{
    attributes, leading_index, leading_u16, member_flag, member_ref_at, method_desc, method_name,
    named, opt_is, pool_get, resolved_method, signature_text, utf8_at, Attribute, AttributeV,
    ClassPool, ClassPoolV, Member, MemberV, PoolClass, PoolClassV, ACC_SYNTHETIC, ACC_VARARGS,
};
use crate::bytecode::InvokeKind;
use crate::expr::{
    clone_expr, concat_parts, exprs, opt_box, ConcatPart, ConcatPartV, ConstVal, ConstValV, Expr,
    ExprV,
};
use crate::signatures::{
    desc_text, field_desc, method_descriptor, opt_java, parse_field_descriptor,
    parse_field_signature, parse_method_descriptor, parsed_field_signature,
};
use crate::sim::{
    emitted, failure, marks_below, popped, popped_args, pushed, step_outcome, BuildError, Sim, SimV,
};
use crate::stmt::{Stmt, StmtV};
use crate::text::{decimal_digit, is_decimal_digit};
use crate::types::{
    has_prefix, starts_with, str_eq, strs, java_types, JType, JTypeV, MethodDescriptor,
    MethodDescriptorV, TypeRef, TypeRefV,
};
use crate::values::{append_chain, collect_append_chain, is_string_builder, string_builder};
use vstd::prelude::*;

verus! {

// ---------------------------------------------------------------------
// Fields.

/// Index of the first of the first `n` fields with that name and descriptor.
pub open spec fn own_field(pc: PoolClassV, n: nat, name: Seq<char>, desc: Seq<char>) -> Option<int>
    decreases n,
{
    if n == 0 {
        None
    } else {
        match own_field(pc, (n - 1) as nat, name, desc) {
            Some(i) => Some(i),
            None => if utf8_at(pc, pc.fields[n - 1].name_index) == Some(name) && utf8_at(
                pc,
                pc.fields[n - 1].descriptor_index,
            ) == Some(desc) {
                Some(n - 1)
            } else {
                None
            },
        }
    }
}

/// The generic type in the signature of a field.
pub open spec fn field_signature(
    pc: PoolClassV,
    name: Seq<char>,
    desc: Seq<char>,
) -> Option<TypeRefV> {
    match own_field(pc, pc.fields.len(), name, desc) {
        Some(i) => match signature_text(pc, pc.fields[i].attributes) {
            Some(text) => match parsed_field_signature(text) {
                Some(g) => Some(TypeRefV::G(g)),
                None => None,
            },
            None => None,
        },
        None => None,
    }
}

/// A first field found among the first `n` is the first of all.
proof fn lemma_own_field(pc: PoolClassV, n: nat, m: nat, name: Seq<char>, desc: Seq<char>)
    requires
        n <= m,
        own_field(pc, n, name, desc) is Some,
    ensures
        own_field(pc, m, name, desc) == own_field(pc, n, name, desc),
    decreases m - n,
{
    if n < m {
        lemma_own_field(pc, n, (m - 1) as nat, name, desc);
    }
}

/// The generic type in the signature of a field.
#[verifier::loop_isolation(false)]
pub fn field_sig_type(fpc: &PoolClass, name: &str, desc: &str) -> (r: Option<TypeRef>)
    ensures
        crate::types::opt_type(r) == field_signature(fpc@, name@, desc@),
{
    let mut i: usize = 0;
    while i < fpc.fields.len()
        invariant
            i <= fpc.fields.len(),
            own_field(fpc@, i as nat, name@, desc@) is None,
        decreases fpc.fields.len() - i,
    {
        assert(fpc@.fields[i as int] == fpc.fields@[i as int]@);
        if opt_is(fpc.utf8(fpc.fields[i].name_index), name) && opt_is(
            fpc.utf8(fpc.fields[i].descriptor_index),
            desc,
        ) {
            proof {
                lemma_own_field(fpc@, (i + 1) as nat, fpc@.fields.len(), name@, desc@);
            }
            return match fpc.signature_text(&fpc.fields[i].attributes) {
                Some(text) => match parse_field_signature(text) {
                    Some(g) => Some(TypeRef::G(g)),
                    None => None,
                },
                None => None,
            };
        }
        i += 1;
    }
    None
}

/// The type of a field: that of its signature where the class is known, else that of
/// its descriptor; `int` for an unreadable one.
pub open spec fn member_type(
    pc: PoolClassV,
    pool: ClassPoolV,
    cls: Seq<char>,
    name: Seq<char>,
    desc: Seq<char>,
) -> TypeRefV {
    let plain = TypeRefV::J(
        match field_desc(desc) {
            Some(t) => t,
            None => JTypeV::Int,
        },
    );
    let owner = if cls == pc.internal_name {
        Some(pc)
    } else {
        pool_get(pool, cls)
    };
    match owner {
        Some(d) => match field_signature(d, name, desc) {
            Some(t) => t,
            None => plain,
        },
        None => plain,
    }
}

/// The type of a field.
pub fn field_type(
    pc: &PoolClass,
    pool: &ClassPool,
    cls: &str,
    name: &str,
    desc: &str,
) -> (r: TypeRef)
    ensures
        r@ == member_type(pc@, pool@, cls@, name@, desc@),
{
    let base = match parse_field_descriptor(desc) {
        Some(t) => t,
        None => JType::Int,
    };
    let owner = if str_eq(cls, pc.internal_name.as_str()) {
        Some(pc)
    } else {
        pool.get(cls)
    };
    match owner {
        Some(d) => match field_sig_type(d, name, desc) {
            Some(t) => t,
            None => TypeRef::J(base),
        },
        None => TypeRef::J(base),
    }
}

/// The owner that is written before a member of `cls`: `this` is left out in the class
/// itself.
pub open spec fn written_owner(pc: PoolClassV, obj: ExprV, cls: Seq<char>) -> Option<Box<ExprV>> {
    if cls == pc.internal_name && obj is This {
        None
    } else {
        Some(Box::new(obj))
    }
}

/// The owner that is written before a member of `cls`.
pub fn owner_expr(pc: &PoolClass, obj: Expr, cls: &str) -> (r: Option<Box<Expr>>)
    ensures
        opt_box(r) == written_owner(pc@, obj@, cls@),
{
    if str_eq(cls, pc.internal_name.as_str()) && matches!(obj, Expr::This) {
        return None;
    }
    let r = Some(Box::new(obj));
    assert(opt_box(r) == Some(Box::new(obj@)));
    r
}

// ---------------------------------------------------------------------
// Calls.

/// Method `i` has that name and descriptor and takes a variable number of arguments.
pub open spec fn is_varargs(pc: PoolClassV, i: int, name: Seq<char>, desc: Seq<char>) -> bool {
    method_name(pc, i) == Some(name) && method_desc(pc, i) == Some(desc) && member_flag(
        pc.methods[i],
        ACC_VARARGS,
    )
}

/// Some method of `pc` does.
pub open spec fn declares_varargs(pc: PoolClassV, name: Seq<char>, desc: Seq<char>) -> bool {
    exists|i: int| 0 <= i < pc.methods.len() && #[trigger] is_varargs(pc, i, name, desc)
}

/// The called method takes a variable number of arguments.
pub open spec fn calls_varargs(
    cls: Seq<char>,
    name: Seq<char>,
    desc: Seq<char>,
    pool: ClassPoolV,
    pc: PoolClassV,
) -> bool {
    if cls == pc.internal_name {
        declares_varargs(pc, name, desc)
    } else {
        match pool_get(pool, cls) {
            Some(d) => declares_varargs(d, name, desc),
            None => false,
        }
    }
}

/// Whether some method of `pc` of that name and descriptor takes a variable number of
/// arguments.
#[verifier::loop_isolation(false)]
fn has_varargs(pc: &PoolClass, name: &str, desc: &str) -> (r: bool)
    ensures
        r == declares_varargs(pc@, name@, desc@),
{
    let mut i: usize = 0;
    while i < pc.methods.len()
        invariant
            i <= pc.methods.len(),
            forall|j: int| 0 <= j < i ==> !#[trigger] is_varargs(pc@, j, name@, desc@),
        decreases pc.methods.len() - i,
    {
        assert(pc@.methods[i as int] == pc.methods@[i as int]@);
        if opt_is(pc.method_name(i), name) && opt_is(pc.method_desc(i), desc)
            && pc.methods[i].has_flag(ACC_VARARGS) {
            assert(is_varargs(pc@, i as int, name@, desc@));
            return true;
        }
        i += 1;
    }
    false
}

/// Whether the called method takes a variable number of arguments.
pub fn method_is_varargs(cls: &str, name: &str, desc: &str, pool: &ClassPool, pc: &PoolClass) -> (r:
    bool)
    ensures
        r == calls_varargs(cls@, name@, desc@, pool@, pc@),
{
    if str_eq(cls, pc.internal_name.as_str()) {
        return has_varargs(pc, name, desc);
    }
    match pool.get(cls) {
        Some(d) => has_varargs(d, name, desc),
        None => false,
    }
}

/// A signature attribute with type parameters.
pub open spec fn is_generic_signature(pc: PoolClassV, a: AttributeV) -> bool {
    &&& named(pc, a, "Signature"@)
    &&& leading_index(a.info) matches Some(i) && (i != 0 && (utf8_at(pc, i) matches Some(s)
        && has_prefix(s, "<"@)))
}

/// Whether an attribute is a signature with type parameters.
fn generic_signature(pc: &PoolClass, a: &Attribute) -> (r: bool)
    ensures
        r == is_generic_signature(pc@, a@),
{
    if !opt_is(pc.utf8(a.name_index), "Signature") {
        return false;
    }
    match leading_u16(&a.info) {
        Some(i) => i != 0 && match pc.utf8(i) {
            Some(s) => starts_with(s, "<"),
            None => false,
        },
        None => false,
    }
}

/// A method with type parameters.
pub open spec fn is_generic_method(pc: PoolClassV, m: MemberV) -> bool {
    exists|i: int|
        0 <= i < m.attributes.len() && is_generic_signature(pc, #[trigger] m.attributes[i])
}

/// Whether a method has type parameters.
#[verifier::loop_isolation(false)]
fn generic_method(pc: &PoolClass, m: &Member) -> (r: bool)
    ensures
        r == is_generic_method(pc@, m@),
{
    let mut i: usize = 0;
    while i < m.attributes.len()
        invariant
            i <= m.attributes.len(),
            forall|j: int| 0 <= j < i ==> !is_generic_signature(pc@, #[trigger] m@.attributes[j]),
        decreases m.attributes.len() - i,
    {
        assert(m@.attributes[i as int] == m.attributes@[i as int]@);
        if generic_signature(pc, &m.attributes[i]) {
            return true;
        }
        i += 1;
    }
    false
}

/// An expression whose type is inferred: a lambda, a dynamic call, or a call of a
/// generic method.
pub open spec fn is_poly(e: ExprV, pool: ClassPoolV) -> bool {
    match e {
        ExprV::Lambda(_) => true,
        ExprV::Invokedynamic { .. } => true,
        ExprV::Method { cls, name, desc, .. } => match resolved_method(
            pool,
            cls,
            name,
            desc_text(desc),
        ) {
            Some((pc, m)) => is_generic_method(pc, m),
            None => false,
        },
        _ => false,
    }
}

/// Whether the type of an expression is inferred.
pub fn is_poly_expr(e: &Expr, pool: &ClassPool) -> (r: bool)
    ensures
        r == is_poly(e@, pool@),
{
    match e {
        Expr::Lambda(_) => true,
        Expr::Invokedynamic { .. } => true,
        Expr::Method { cls, name, desc, .. } => {
            let text = desc.text();
            match pool.resolve_method(cls.as_str(), name.as_str(), text.as_str()) {
                Some((pc, m)) => generic_method(pc, m),
                None => false,
            }
        },
        _ => false,
    }
}

/// The element type that constants in a spread array are narrowed to.
pub open spec fn narrow_element(types: Seq<JTypeV>) -> Option<JTypeV> {
    if types.len() == 0 {
        None
    } else {
        match types.last() {
            JTypeV::Array(c) => if *c is Byte || *c is Short || *c is Char {
                Some(*c)
            } else {
                None
            },
            _ => None,
        }
    }
}

/// A value of a spread array: an `int` constant is cast where the element is narrower.
pub open spec fn spread_value(e: ExprV, narrow: Option<JTypeV>) -> ExprV {
    match (narrow, e) {
        (Some(t), ExprV::Const(ConstValV::Int(_))) => ExprV::Cast {
            ty: TypeRefV::J(t),
            e: Box::new(e),
        },
        _ => e,
    }
}

/// The arguments of a call with a variable number of them: an array with its values
/// written out is spread.
pub open spec fn spread(args: Seq<ExprV>, types: Seq<JTypeV>) -> Seq<ExprV> {
    if args.len() == 0 {
        args
    } else {
        match args.last() {
            ExprV::NewArray { init: Some(vals), .. } => args.drop_last() + Seq::new(
                vals.len(),
                |i: int| spread_value(vals[i], narrow_element(types)),
            ),
            _ => args,
        }
    }
}

/// The element type that constants in a spread array are narrowed to.
fn narrow_type(types: &Vec<JType>) -> (r: Option<JType>)
    ensures
        opt_java(r) == narrow_element(java_types(types@)),
{
    proof {
        reveal_with_fuel(JType::view, 2);
    }
    assert(java_types(types@).len() == types@.len());
    if types.len() == 0 {
        return None;
    }
    let i = types.len() - 1;
    assert(java_types(types@)[i as int] == types@[i as int]@);
    match &types[i] {
        JType::Array(c) => match &**c {
            JType::Byte => Some(JType::Byte),
            JType::Short => Some(JType::Short),
            JType::Char => Some(JType::Char),
            _ => None,
        },
        _ => None,
    }
}

/// A value of a spread array.
fn narrow_value(e: Expr, narrow: &Option<JType>) -> (r: Expr)
    ensures
        r@ == spread_value(e@, opt_java(*narrow)),
{
    proof {
        reveal_with_fuel(Expr::view, 2);
    }
    if let Some(t) = narrow {
        if let Expr::Const(ConstVal::Int(_)) = &e {
            return Expr::Cast { ty: TypeRef::J(t.clone()), e: Box::new(e) };
        }
    }
    e
}

/// Takes the values of an array, where they are written out.
fn take_init(e: Expr) -> (r: Result<Vec<Expr>, Expr>)
    ensures
        match r {
            Ok(v) => e@ matches ExprV::NewArray { init, .. } && init == Some(exprs(v@)),
            Err(x) => x@ == e@ && !(e@ matches ExprV::NewArray { init: Some(_), .. }),
        },
{
    match e {
        Expr::NewArray { elem, dims, trailing_dims, init } => match init {
            Some(v) => {
                assert(crate::expr::opt_exprs(Some(v)) == Some(exprs(v@)));
                Ok(v)
            },
            None => {
                let none: Option<Vec<Expr>> = None;
                assert(crate::expr::opt_exprs(none) is None);
                Err(Expr::NewArray { elem, dims, trailing_dims, init: none })
            },
        },
        other => Err(other),
    }
}

/// Spreads the arguments of a call with a variable number of them.
#[verifier::loop_isolation(false)]
fn spread_args(args: Vec<Expr>, types: &Vec<JType>) -> (r: Vec<Expr>)
    ensures
        exprs(r@) == spread(exprs(args@), java_types(types@)),
{
    let ghost all = exprs(args@);
    let ghost narrow_to = narrow_element(java_types(types@));
    let mut args = args;
    assert(all.len() == args@.len());
    if args.len() == 0 {
        return args;
    }
    assert(all.last() == args@[args@.len() - 1]@);
    let narrow = narrow_type(types);
    if let Some(last) = args.pop() {
        assert(exprs(args@) =~= all.drop_last());
        match take_init(last) {
            Ok(vals) => {
                let ghost vs = exprs(vals@);
                let ghost goal = Seq::new(vs.len(), |i: int| spread_value(vs[i], narrow_to));
                let mut i: usize = 0;
                assert(exprs(args@) =~= all.drop_last() + goal.take(0));
                assert(vs.len() == vals@.len());
                while i < vals.len()
                    invariant
                        i <= vals.len(),
                        exprs(args@) == all.drop_last() + goal.take(i as int),
                    decreases vals.len() - i,
                {
                    let ghost before = exprs(args@);
                    assert(vs[i as int] == vals@[i as int]@);
                    args.push(narrow_value(clone_expr(&vals[i]), &narrow));
                    assert(exprs(args@) =~= before.push(goal[i as int]));
                    i += 1;
                    assert(exprs(args@) =~= all.drop_last() + goal.take(i as int));
                }
                assert(goal.take(i as int) =~= goal);
            },
            Err(last) => {
                args.push(last);
                assert(exprs(args@) =~= all);
            },
        }
    }
    args
}

/// All characters are decimal digits.
pub open spec fn all_digits(text: Seq<char>) -> bool {
    forall|i: int| 0 <= i < text.len() ==> is_decimal_digit(#[trigger] text[i])
}

/// A class made only to tell constructors apart: synthetic, or named by a number.
pub open spec fn is_marker_class(pool: ClassPoolV, name: Seq<char>) -> bool {
    ||| pool_get(pool, name) matches Some(pc) && pc.access_flags & ACC_SYNTHETIC != 0
    ||| after_dollar(name).len() > 0 && all_digits(after_dollar(name))
}

/// Arguments of a constructor without the `null` for a marker class.
pub open spec fn without_marker(
    args: Seq<ExprV>,
    types: Seq<JTypeV>,
    pool: ClassPoolV,
) -> Seq<ExprV> {
    if types.len() > 0 && args.len() > 0 && args.last() == ExprV::Const(ConstValV::Null) {
        match types.last() {
            JTypeV::Object(n) => if is_marker_class(pool, n) {
                args.drop_last()
            } else {
                args
            },
            _ => args,
        }
    } else {
        args
    }
}

/// Whether the part after the last `$` of a class name is a number.
#[verifier::loop_isolation(false)]
fn numbered_tail(name: &str) -> (r: bool)
    ensures
        r == (after_dollar(name@).len() > 0 && all_digits(after_dollar(name@))),
{
    let n = name.unicode_len();
    let mut i: usize = n;
    let mut digits = true;
    assert(name@.take(n as int) =~= name@);
    assert(after_dollar(name@.take(n as int)) + name@.skip(n as int) =~= after_dollar(name@));
    while i > 0
        invariant
            i <= n,
            after_dollar(name@.take(i as int)) + name@.skip(i as int) == after_dollar(name@),
            digits == all_digits(name@.skip(i as int)),
        decreases i,
    {
        let c = name.get_char(i - 1);
        let ghost head = name@.take(i as int);
        assert(head.last() == c);
        assert(head.drop_last() =~= name@.take(i - 1));
        if c == '$' {
            assert(after_dollar(name@) =~= name@.skip(i as int));
            assert(after_dollar(name@).len() == n - i);
            return i < n && digits;
        }
        assert(name@.skip(i - 1) =~= seq![c] + name@.skip(i as int));
        assert(after_dollar(head) + name@.skip(i as int) =~= after_dollar(name@.take(i - 1))
            + name@.skip(
            i - 1,
        ));
        proof {
            if digits && is_decimal_digit(c) {
                assert forall|j: int| 0 <= j < name@.skip(i - 1).len() implies is_decimal_digit(
                    #[trigger] name@.skip(i - 1)[j],
                ) by {
                    if j > 0 {
                        assert(name@.skip(i - 1)[j] == name@.skip(i as int)[j - 1]);
                    }
                }
            } else if !is_decimal_digit(c) {
                assert(name@.skip(i - 1)[0] == c);
            } else {
                let j = choose|j: int|
                    0 <= j < name@.skip(i as int).len() && !is_decimal_digit(
                        #[trigger] name@.skip(i as int)[j],
                    );
                assert(name@.skip(i - 1)[j + 1] == name@.skip(i as int)[j]);
            }
        }
        digits = digits && decimal_digit(c);
        i -= 1;
    }
    assert(after_dollar(name@) =~= name@.skip(0));
    assert(name@.skip(0) =~= name@);
    n > 0 && digits
}

/// Whether a class was made only to tell constructors apart.
fn marker_class(pool: &ClassPool, name: &str) -> (r: bool)
    ensures
        r == is_marker_class(pool@, name@),
{
    if let Some(pc) = pool.get(name) {
        if pc.access_flags & ACC_SYNTHETIC != 0 {
            return true;
        }
    }
    numbered_tail(name)
}

/// Drops the `null` for a marker class from the arguments of a constructor.
fn drop_marker(args: &mut Vec<Expr>, types: &Vec<JType>, pool: &ClassPool)
    ensures
        exprs(final(args)@) == without_marker(exprs(old(args)@), java_types(types@), pool@),
{
    let ghost all = exprs(args@);
    assert(all.len() == args@.len());
    assert(java_types(types@).len() == types@.len());
    if types.len() == 0 || args.len() == 0 {
        return ;
    }
    let last = args.len() - 1;
    assert(all[last as int] == args@[last as int]@);
    let null = match &args[last] {
        Expr::Const(ConstVal::Null) => true,
        _ => false,
    };
    if !null {
        return ;
    }
    let i = types.len() - 1;
    assert(java_types(types@)[i as int] == types@[i as int]@);
    if let JType::Object(n) = &types[i] {
        if marker_class(pool, n.as_str()) {
            let _ = args.pop();
            assert(exprs(args@) =~= all.drop_last());
        }
    }
}

/// A constructor call on `owner`: it completes the object that `new` began, or it is
/// `this(..)` or `super(..)`.
pub open spec fn constructed(
    st: SimV,
    pc: PoolClassV,
    cls: Seq<char>,
    desc: MethodDescriptorV,
    args: Seq<ExprV>,
    owner: Option<ExprV>,
) -> SimV {
    match owner {
        Some(ExprV::New { raw: true, .. }) => {
            let made = ExprV::New {
                cls,
                ty: TypeRefV::J(JTypeV::Object(cls)),
                args,
                raw: false,
            };
            let twin = st.stack.len() > 0
                && (st.stack.last() matches ExprV::New { raw: true, cls: c, .. }
                && c == cls);
            if twin {
                pushed(
                    SimV {
                        stack: st.stack.drop_last(),
                        marks: marks_below(st.marks, st.stack.len() - 1),
                        ..st
                    },
                    made,
                )
            } else {
                pushed(st, made)
            }
        },
        _ => emitted(
            st,
            StmtV::ExprStmt(
                ExprV::Method {
                    owner: Some(
                        Box::new(
                            match owner {
                                Some(o) => o,
                                None => ExprV::This,
                            },
                        ),
                    ),
                    cls,
                    name: "<init>"@,
                    desc,
                    args,
                    is_static: false,
                    is_interface: false,
                    is_special: true,
                    is_super: cls != pc.internal_name,
                    is_dynamic: false,
                    type_args: seq![],
                },
            ),
        ),
    }
}

/// A value on the stack, or a statement where there is no value.
pub open spec fn produced(st: SimV, e: ExprV, ret: JTypeV) -> SimV {
    if ret is Void {
        emitted(st, StmtV::ExprStmt(e))
    } else {
        pushed(st, e)
    }
}

/// A call on `owner` with `args`, once the stack holds neither.
pub open spec fn called(
    st: SimV,
    pc: PoolClassV,
    pool: ClassPoolV,
    kind: InvokeKind,
    cls: Seq<char>,
    name: Seq<char>,
    desc: MethodDescriptorV,
    args: Seq<ExprV>,
    owner: Option<ExprV>,
) -> SimV {
    let is_static = kind is Static;
    let super_call = kind is Special && owner == Some(ExprV::This) && cls != pc.internal_name;
    let chain = match owner {
        Some(o) => append_chain(o),
        None => None,
    };
    if !is_static && args.len() == 0 && name == "toString"@ && is_string_builder(cls)
        && chain is Some {
        pushed(st, ExprV::StringConcat(chain.unwrap()))
    } else if cls == "java/lang/String"@ && name == "valueOf"@ && args.len() == 1 && is_poly(
        args[0],
        pool,
    ) {
        pushed(
            st,
            ExprV::StringConcat(seq![ConcatPartV::Const(seq![]), ConcatPartV::Str(args[0])]),
        )
    } else {
        produced(
            st,
            ExprV::Method {
                owner: if super_call {
                    None
                } else {
                    match owner {
                        Some(o) => written_owner(pc, o, cls),
                        None => None,
                    }
                },
                cls,
                name,
                desc,
                args,
                is_static,
                is_interface: kind is Interface,
                is_special: kind is Special,
                is_super: super_call,
                is_dynamic: false,
                type_args: seq![],
            },
            desc.ret,
        )
    }
}

/// The arguments as they are written.
pub open spec fn written_args(
    args: Seq<ExprV>,
    cls: Seq<char>,
    name: Seq<char>,
    text: Seq<char>,
    desc: MethodDescriptorV,
    pool: ClassPoolV,
    pc: PoolClassV,
) -> Seq<ExprV> {
    if calls_varargs(cls, name, text, pool, pc) {
        spread(args, desc.args)
    } else {
        args
    }
}

/// An invocation of the method at constant `idx`.
pub open spec fn invoked(
    st: SimV,
    pc: PoolClassV,
    pool: ClassPoolV,
    kind: InvokeKind,
    idx: u16,
) -> Result<SimV, Seq<char>> {
    match member_ref_at(pc, idx) {
        None => Err("bad member ref"@),
        Some((cls, name, text)) => match method_descriptor(text) {
            None => Err("bad desc "@ + text),
            Some(desc) => match popped_args(st, desc.args.len()) {
                Err(x) => Err(x),
                Ok((raw, st1)) => {
                    let args = written_args(raw, cls, name, text, desc, pool, pc);
                    if kind is Static {
                        Ok(
                            if name == "<init>"@ {
                                constructed(
                                    st1,
                                    pc,
                                    cls,
                                    desc,
                                    without_marker(args, desc.args, pool),
                                    None,
                                )
                            } else {
                                called(st1, pc, pool, kind, cls, name, desc, args, None)
                            },
                        )
                    } else {
                        match popped(st1) {
                            Err(x) => Err(x),
                            Ok((owner, st2)) => Ok(
                                if name == "<init>"@ {
                                    constructed(
                                        st2,
                                        pc,
                                        cls,
                                        desc,
                                        without_marker(args, desc.args, pool),
                                        Some(owner),
                                    )
                                } else {
                                    called(st2, pc, pool, kind, cls, name, desc, args, Some(owner))
                                },
                            ),
                        }
                    }
                },
            },
        },
    }
}

/// Model of an optional expression by value.
pub open spec fn opt_value(o: Option<Expr>) -> Option<ExprV> {
    match o {
        Some(e) => Some(e@),
        None => None,
    }
}

/// Whether the top of the stack is the object that `new` began.
fn is_twin(st: &Sim, cls: &str) -> (r: bool)
    ensures
        r == (st@.stack.len() > 0 && (st@.stack.last() matches ExprV::New { raw: true, cls: c, .. }
            && c == cls@)),
{
    match st.top() {
        Some(Expr::New { raw, cls: c, .. }) => *raw && str_eq(c.as_str(), cls),
        _ => false,
    }
}

/// A constructor call.
fn construct(
    st: &mut Sim,
    pc: &PoolClass,
    cls: &str,
    desc: MethodDescriptor,
    args: Vec<Expr>,
    owner: Option<Expr>,
)
    ensures
        final(st)@ == constructed(old(st)@, pc@, cls@, desc@, exprs(args@), opt_value(owner)),
{
    let fresh = match &owner {
        Some(Expr::New { raw, .. }) => *raw,
        _ => false,
    };
    if fresh {
        let made = Expr::New {
            cls: cls.to_owned(),
            ty: TypeRef::J(JType::Object(cls.to_owned())),
            args,
            raw: false,
        };
        if is_twin(st, cls) {
            assert(exprs(st.stack@).len() == st.stack@.len());
            let _ = st.pop();
        }
        st.push(made);
        return ;
    }
    let owner = match owner {
        Some(o) => o,
        None => Expr::This,
    };
    let boxed = Some(Box::new(owner));
    assert(opt_box(boxed) == Some(Box::new(owner@)));
    let none: Vec<String> = Vec::new();
    assert(strs(none@) =~= seq![]);
    let e = Expr::Method {
        owner: boxed,
        cls: cls.to_owned(),
        name: "<init>".to_owned(),
        desc,
        args,
        is_static: false,
        is_interface: false,
        is_special: true,
        is_super: !str_eq(cls, pc.internal_name.as_str()),
        is_dynamic: false,
        type_args: none,
    };
    st.emit(Stmt::ExprStmt(e));
}

/// Puts a value on the stack, or adds a statement where there is no value.
pub fn produce(st: &mut Sim, e: Expr, ret: &JType)
    ensures
        final(st)@ == produced(old(st)@, e@, ret@),
{
    if matches!(ret, JType::Void) {
        st.emit(Stmt::ExprStmt(e));
    } else {
        st.push(e);
    }
}

/// `"" + e`.
fn empty_plus(e: Expr) -> (r: Expr)
    ensures
        r@ == ExprV::StringConcat(seq![ConcatPartV::Const(seq![]), ConcatPartV::Str(e@)]),
{
    let mut parts: Vec<ConcatPart> = Vec::new();
    let empty: String = String::new();
    assert(empty@ =~= seq![]);
    parts.push(ConcatPart::Const(empty));
    parts.push(ConcatPart::Str(e));
    assert(concat_parts(parts@) =~= seq![ConcatPartV::Const(seq![]), ConcatPartV::Str(e@)]);
    Expr::StringConcat(parts)
}

/// A call.
#[verifier::spinoff_prover]
fn call(
    st: &mut Sim,
    pc: &PoolClass,
    pool: &ClassPool,
    kind: InvokeKind,
    cls: &str,
    name: &str,
    desc: MethodDescriptor,
    args: Vec<Expr>,
    owner: Option<Expr>,
)
    requires
        owner is None <==> kind is Static,
    ensures
        final(st)@ == called(
            old(st)@,
            pc@,
            pool@,
            kind,
            cls@,
            name@,
            desc@,
            exprs(args@),
            opt_value(owner),
        ),
{
    let ghost xs = exprs(args@);
    assert(xs.len() == args@.len());
    if args.len() == 0 && str_eq(name, "toString") && string_builder(cls) {
        if let Some(o) = &owner {
            if let Some(parts) = collect_append_chain(o) {
                st.push(Expr::StringConcat(parts));
                return ;
            }
        }
    }
    if str_eq(cls, "java/lang/String") && str_eq(name, "valueOf") && args.len() == 1 {
        assert(xs[0] == args@[0]@);
        if is_poly_expr(&args[0], pool) {
            st.push(empty_plus(clone_expr(&args[0])));
            return ;
        }
    }
    let is_special = matches!(kind, InvokeKind::Special);
    let on_this = match &owner {
        Some(Expr::This) => true,
        _ => false,
    };
    let super_call = is_special && on_this && !str_eq(cls, pc.internal_name.as_str());
    let written: Option<Box<Expr>> = if super_call {
        None
    } else {
        match owner {
            Some(o) => owner_expr(pc, o, cls),
            None => None,
        }
    };
    let none: Vec<String> = Vec::new();
    assert(strs(none@) =~= seq![]);
    let ret = desc.ret.clone();
    let e = Expr::Method {
        owner: written,
        cls: cls.to_owned(),
        name: name.to_owned(),
        desc,
        args,
        is_static: matches!(kind, InvokeKind::Static),
        is_interface: matches!(kind, InvokeKind::Interface),
        is_special,
        is_super: super_call,
        is_dynamic: false,
        type_args: none,
    };
    produce(st, e, &ret);
}

/// The error for an unreadable descriptor.
fn bad_desc(text: &str) -> (r: BuildError)
    ensures
        r.0@ == "bad desc "@ + text@,
{
    let mut s: String = "bad desc ".to_owned();
    s.append(text);
    BuildError(s)
}

/// An invocation of the method at constant `idx`.
#[verifier::spinoff_prover]
pub fn invoke(
    st: &mut Sim,
    pc: &PoolClass,
    pool: &ClassPool,
    kind: InvokeKind,
    idx: u16,
) -> (r: Result<
    (),
    BuildError,
>)
    ensures
        step_outcome(r, old(st)@, final(st)@, invoked(old(st)@, pc@, pool@, kind, idx)),
{
    let (cls, name, text) = match pc.member_ref(idx) {
        Some(m) => m,
        None => {
            return Err(failure("bad member ref"));
        },
    };
    let desc = match parse_method_descriptor(text) {
        Some(d) => d,
        None => {
            return Err(bad_desc(text));
        },
    };
    assert(java_types(desc.args@).len() == desc.args@.len());
    let mut args = match st.pop_args(desc.args.len()) {
        Ok(a) => a,
        Err(x) => {
            return Err(x);
        },
    };
    if method_is_varargs(cls, name, text, pool, pc) {
        args = spread_args(args, &desc.args);
    }
    let owner = if matches!(kind, InvokeKind::Static) {
        None
    } else {
        match st.pop() {
            Ok(o) => Some(o),
            Err(x) => {
                return Err(x);
            },
        }
    };
    if str_eq(name, "<init>") {
        drop_marker(&mut args, &desc.args, pool);
        construct(st, pc, cls, desc, args, owner);
    } else {
        call(st, pc, pool, kind, cls, name, desc, args, owner);
    }
    Ok(())
}

} // verus!
