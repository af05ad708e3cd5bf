//! What the class pool answers about classes, seen from the class being decompiled.
use crate::classes::{
    attr_info, class_name_at, method_desc, method_name, opt_is, own_method, pool_get,
    signature_text, super_name, utf8_at, ClassPool, ClassPoolV, PoolClass, PoolClassV,
    ACC_INTERFACE,
};
use crate::generics::{
    contains_typevar, g_has_wildcard, mentions_typevar, mentions_wildcard, subst_typevars,
    substituted,
};
use crate::signatures::{
    opt_class_sig, parse_class_signature, parse_method_signature, parsed_class_signature,
    parsed_method_signature, ClassSignature, ClassSignatureV,
};
use crate::text::{append_decimal, contains_string, decimal};
use crate::types::{
    internal_name, opt_str, opt_type, sig_parts, strs, type_params, GType, GTypeV, TParam, TParamV,
    TypeRef, TypeRefV,
};
use vstd::prelude::*;

verus! {

/// The class being decompiled and the classes around it.
#[derive(Debug)]
pub struct JvmCtx<'a> {
    pub pc: &'a PoolClass,
    pub pool: &'a ClassPool,
}

/// The names of the first `n` interfaces that the class implements, or that an interface
/// extends.
pub open spec fn interface_names(pc: PoolClassV, n: nat) -> Seq<Seq<char>>
    decreases n,
{
    if n == 0 {
        seq![]
    } else {
        let front = interface_names(pc, (n - 1) as nat);
        match class_name_at(pc, pc.interfaces[n - 1]) {
            Some(name) => front.push(name),
            None => front,
        }
    }
}

/// The first of the first `n` fields with that name.
pub open spec fn own_field(pc: PoolClassV, n: nat, name: Seq<char>) -> Option<int>
    decreases n,
{
    if n == 0 {
        None
    } else {
        match own_field(pc, (n - 1) as nat, name) {
            Some(i) => Some(i),
            None => if utf8_at(pc, pc.fields[n - 1].name_index) == Some(name) {
                Some(n - 1)
            } else {
                None
            },
        }
    }
}

/// The first of the first `n` methods with that name.
pub open spec fn method_named(pc: PoolClassV, n: nat, name: Seq<char>) -> Option<int>
    decreases n,
{
    if n == 0 {
        None
    } else {
        match method_named(pc, (n - 1) as nat, name) {
            Some(i) => Some(i),
            None => if method_name(pc, n - 1) == Some(name) {
                Some(n - 1)
            } else {
                None
            },
        }
    }
}

/// A field found among the first `n` is the first of all.
proof fn lemma_own_field(pc: PoolClassV, n: nat, m: nat, name: Seq<char>)
    requires
        n <= m,
        own_field(pc, n, name) is Some,
    ensures
        own_field(pc, m, name) == own_field(pc, n, name),
    decreases m - n,
{
    if n < m {
        lemma_own_field(pc, n, (m - 1) as nat, name);
    }
}

/// A method found among the first `n` is the first of all.
proof fn lemma_method_named(pc: PoolClassV, n: nat, m: nat, name: Seq<char>)
    requires
        n <= m,
        method_named(pc, n, name) is Some,
    ensures
        method_named(pc, m, name) == method_named(pc, n, name),
    decreases m - n,
{
    if n < m {
        lemma_method_named(pc, n, (m - 1) as nat, name);
    }
}

/// The generic signature of a class.
pub open spec fn class_signature(pc: PoolClassV) -> Option<ClassSignatureV> {
    match signature_text(pc, pc.attributes) {
        Some(text) => parsed_class_signature(text),
        None => None,
    }
}

/// Some constructor of the class has one of these descriptors.
pub open spec fn has_ctor_among(pc: PoolClassV, descs: Seq<Seq<char>>) -> bool {
    exists|i: int|
        0 <= i < pc.methods.len() && #[trigger] method_name(pc, i) == Some("<init>"@) && (
        method_desc(pc, i) matches Some(d) && descs.contains(d))
}

/// The name of a local class number `d` of a class.
pub open spec fn local_name(cls: Seq<char>, d: nat, simple: Seq<char>) -> Seq<char> {
    cls + "$"@ + decimal(d) + simple
}

/// The class that a simple name stands for inside `cls`: the recorded one, else the
/// member class of that name, else the local class of that name with the lowest number
/// up to three.
pub open spec fn local_class(
    recorded: Option<Seq<char>>,
    cls: Seq<char>,
    simple: Seq<char>,
    pool: ClassPoolV,
) -> Option<Seq<char>> {
    if recorded is Some {
        recorded
    } else if pool_get(pool, cls + "$"@ + simple) is Some {
        Some(cls + "$"@ + simple)
    } else if pool_get(pool, local_name(cls, 1, simple)) is Some {
        Some(local_name(cls, 1, simple))
    } else if pool_get(pool, local_name(cls, 2, simple)) is Some {
        Some(local_name(cls, 2, simple))
    } else if pool_get(pool, local_name(cls, 3, simple)) is Some {
        Some(local_name(cls, 3, simple))
    } else {
        None
    }
}

/// The type that the functional method `sam` of `g` returns, where it mentions a type
/// variable and no wildcard: the signature's return type with the type arguments of `g`.
/// A wildcard cannot be cast to.
pub open spec fn sam_return(g: GTypeV, sam: Seq<char>, pool: ClassPoolV) -> Option<TypeRefV> {
    match g {
        GTypeV::Class(cs) => if cs.parts.len() == 0 || cs.parts.last().args.len() == 0 {
            None
        } else {
            match pool_get(pool, internal_name(cs)) {
                Some(c) => match class_signature(c) {
                    Some(sig) => sam_return_in(c, sig.params, cs.parts.last().args, sam),
                    None => None,
                },
                None => None,
            }
        },
        _ => None,
    }
}

/// [`sam_return`] of the class that declares the method.
pub open spec fn sam_return_in(
    c: PoolClassV,
    params: Seq<TParamV>,
    args: Seq<GTypeV>,
    sam: Seq<char>,
) -> Option<TypeRefV> {
    match method_named(c, c.methods.len(), sam) {
        Some(i) => match signature_text(c, c.methods[i].attributes) {
            Some(text) => match parsed_method_signature(text) {
                Some(sig) => {
                    let ret = substituted(sig.ret, params, args);
                    if mentions_typevar(ret) && !mentions_wildcard(ret) {
                        Some(TypeRefV::G(ret))
                    } else {
                        None
                    }
                },
                None => None,
            },
            None => None,
        },
        None => None,
    }
}

/// The generic signature of a class.
fn read_class_signature(pc: &PoolClass) -> (r: Option<ClassSignature>)
    ensures
        opt_class_sig(r) == class_signature(pc@),
{
    match pc.signature_text(&pc.attributes) {
        Some(text) => parse_class_signature(text),
        None => None,
    }
}

/// Index of the first method with that name.
fn find_named(pc: &PoolClass, name: &str) -> (r: Option<usize>)
    ensures
        match r {
            Some(i) => i < pc.methods.len() && method_named(pc@, pc@.methods.len(), name@) == Some(
                i as int,
            ),
            None => method_named(pc@, pc@.methods.len(), name@) is None,
        },
{
    let mut i: usize = 0;
    while i < pc.methods.len()
        invariant
            i <= pc.methods.len(),
            method_named(pc@, i as nat, name@) is None,
        decreases pc.methods.len() - i,
    {
        if opt_is(pc.method_name(i), name) {
            proof {
                lemma_method_named(pc@, (i + 1) as nat, pc@.methods.len(), name@);
            }
            return Some(i);
        }
        i += 1;
    }
    None
}

/// [`sam_return_in`] the class that declares the method.
fn sam_ret_in(c: &PoolClass, params: &Vec<TParam>, args: &Vec<GType>, sam: &str) -> (r: Option<
    TypeRef,
>)
    ensures
        opt_type(r) == sam_return_in(c@, type_params(params@), crate::types::generics(args@), sam@),
{
    let i = match find_named(c, sam) {
        Some(i) => i,
        None => {
            return None;
        },
    };
    assert(c@.methods[i as int] == c.methods@[i as int]@);
    let text = match c.signature_text(&c.methods[i].attributes) {
        Some(text) => text,
        None => {
            return None;
        },
    };
    match parse_method_signature(text) {
        Some(sig) => {
            let ret = subst_typevars(&sig.ret, params, args);
            if contains_typevar(&ret) && !g_has_wildcard(&ret) {
                Some(TypeRef::G(ret))
            } else {
                None
            }
        },
        None => None,
    }
}

/// `cls`, `$`, a number and a simple name.
fn numbered_name(cls: &str, d: u8, simple: &str) -> (r: String)
    ensures
        r@ == local_name(cls@, d as nat, simple@),
{
    let mut r = String::from_str(cls);
    r.append("$");
    append_decimal(&mut r, d as u128);
    r.append(simple);
    r
}

impl<'a> JvmCtx<'a> {
    /// The context of class `pc` among the classes of `pool`.
    pub fn new(pc: &'a PoolClass, pool: &'a ClassPool) -> (r: Self)
        ensures
            r.pc == pc,
            r.pool == pool,
    {
        JvmCtx { pc, pool }
    }

    /// The class being decompiled.
    pub fn class_name(&self) -> (r: &str)
        ensures
            r@ == self.pc@.internal_name,
    {
        self.pc.internal_name.as_str()
    }

    /// The major version of the class file.
    pub fn source_level(&self) -> (r: u16)
        ensures
            r == self.pc@.major_version,
    {
        self.pc.major_version
    }

    /// Whether the pool knows this class and it is an interface.
    pub fn is_interface(&self, internal: &str) -> (r: bool)
        ensures
            r == (pool_get(self.pool@, internal@) matches Some(c) && c.access_flags & ACC_INTERFACE
                != 0),
    {
        match self.pool.get(internal) {
            Some(c) => c.access_flags & ACC_INTERFACE != 0,
            None => false,
        }
    }

    /// Whether the pool knows this class and it lists its permitted subclasses.
    pub fn is_sealed(&self, internal: &str) -> (r: bool)
        ensures
            r == (pool_get(self.pool@, internal@) matches Some(c) && attr_info(
                c,
                c.attributes,
                "PermittedSubclasses"@,
            ) is Some),
    {
        match self.pool.get(internal) {
            Some(c) => c.attr_info(&c.attributes, "PermittedSubclasses").is_some(),
            None => false,
        }
    }

    /// The superclass of a class that the pool knows.
    pub fn super_name(&self, internal: &str) -> (r: Option<String>)
        ensures
            opt_str(r) == match pool_get(self.pool@, internal@) {
                Some(c) => super_name(c),
                None => None,
            },
    {
        match self.pool.get(internal) {
            Some(c) => match c.super_name() {
                Some(name) => Some(name.to_string()),
                None => None,
            },
            None => None,
        }
    }

    /// Whether this is the class being decompiled or one that the pool knows.
    pub fn has_class(&self, internal: &str) -> (r: bool)
        ensures
            r == (pool_get(self.pool@, internal@) is Some || internal@ == self.pc@.internal_name),
    {
        self.pool.get(internal).is_some() || crate::types::str_eq(
            internal,
            self.pc.internal_name.as_str(),
        )
    }

    /// The interfaces and the superclass of a class that the pool knows.
    pub fn class_bases(&self, internal: &str) -> (r: Option<(Vec<String>, Option<String>)>)
        ensures
            match r {
                Some((interfaces, base)) => pool_get(self.pool@, internal@) matches Some(c) && (
                strs(interfaces@) == interface_names(c, c.interfaces.len()) && opt_str(base)
                    == super_name(c)),
                None => pool_get(self.pool@, internal@) is None,
            },
    {
        let c = match self.pool.get(internal) {
            Some(c) => c,
            None => {
                return None;
            },
        };
        let mut names: Vec<String> = Vec::new();
        let mut i: usize = 0;
        assert(strs(names@) =~= seq![]);
        while i < c.interfaces.len()
            invariant
                i <= c.interfaces.len(),
                strs(names@) == interface_names(c@, i as nat),
            decreases c.interfaces.len() - i,
        {
            let ghost front = strs(names@);
            if let Some(name) = c.class_name(c.interfaces[i]) {
                let ghost text = name@;
                names.push(name.to_string());
                assert(strs(names@) =~= front.push(text));
            }
            i += 1;
        }
        let base = match c.super_name() {
            Some(name) => Some(name.to_string()),
            None => None,
        };
        Some((names, base))
    }

    /// The access flags of the first field of that name in a class that the pool knows.
    #[verifier::loop_isolation(false)]
    pub fn field_flags(&self, internal: &str, name: &str) -> (r: Option<u16>)
        ensures
            r == match pool_get(self.pool@, internal@) {
                Some(c) => match own_field(c, c.fields.len(), name@) {
                    Some(i) => Some(c.fields[i].access_flags),
                    None => None,
                },
                None => None,
            },
    {
        let c = match self.pool.get(internal) {
            Some(c) => c,
            None => {
                return None;
            },
        };
        let mut i: usize = 0;
        while i < c.fields.len()
            invariant
                i <= c.fields.len(),
                own_field(c@, i as nat, name@) is None,
            decreases c.fields.len() - i,
        {
            assert(c@.fields[i as int] == c.fields@[i as int]@);
            if opt_is(c.utf8(c.fields[i].name_index), name) {
                proof {
                    lemma_own_field(c@, (i + 1) as nat, c@.fields.len(), name@);
                }
                return Some(c.fields[i].access_flags);
            }
            i += 1;
        }
        None
    }

    /// The access flags of the first method of that name and descriptor in a class that
    /// the pool knows.
    pub fn method_flags(&self, internal: &str, name: &str, desc: &str) -> (r: Option<u16>)
        ensures
            r == match pool_get(self.pool@, internal@) {
                Some(c) => match own_method(c, c.methods.len(), name@, desc@) {
                    Some(i) => Some(c.methods[i].access_flags),
                    None => None,
                },
                None => None,
            },
    {
        match self.pool.get(internal) {
            Some(c) => match c.find_own_method(name, desc) {
                Some(i) => {
                    proof {
                        crate::classes::lemma_own_method_bound(
                            c@,
                            c@.methods.len(),
                            name@,
                            desc@,
                        );
                    }
                    assert(c@.methods[i as int] == c.methods@[i as int]@);
                    Some(c.methods[i].access_flags)
                },
                None => None,
            },
            None => None,
        }
    }

    /// Whether a class that the pool knows has a method of that name of its own.
    pub fn declares_method_named(&self, internal: &str, name: &str) -> (r: bool)
        ensures
            r == (pool_get(self.pool@, internal@) matches Some(c) && method_named(
                c,
                c.methods.len(),
                name@,
            ) is Some),
    {
        match self.pool.get(internal) {
            Some(c) => find_named(c, name).is_some(),
            None => false,
        }
    }

    /// The type parameters of a class that the pool knows, from its signature.
    pub fn class_type_params(&self, internal: &str) -> (r: Vec<TParam>)
        ensures
            type_params(r@) == match pool_get(self.pool@, internal@) {
                Some(c) => match class_signature(c) {
                    Some(sig) => sig.params,
                    None => seq![],
                },
                None => seq![],
            },
    {
        let none: Vec<TParam> = Vec::new();
        assert(type_params(none@) =~= seq![]);
        match self.pool.get(internal) {
            Some(c) => match read_class_signature(c) {
                Some(sig) => sig.params,
                None => none,
            },
            None => none,
        }
    }

    /// Whether a class that the pool knows has a constructor with one of the descriptors
    /// `descs`, those that hand the enclosing instance to the superclass.
    #[verifier::loop_isolation(false)]
    pub fn outer_param_via_super(&self, internal: &str, descs: &Vec<String>) -> (r: bool)
        ensures
            r == (pool_get(self.pool@, internal@) matches Some(c) && has_ctor_among(
                c,
                strs(descs@),
            )),
    {
        let c = match self.pool.get(internal) {
            Some(c) => c,
            None => {
                return false;
            },
        };
        let mut i: usize = 0;
        while i < c.methods.len()
            invariant
                i <= c.methods.len(),
                forall|j: int|
                    0 <= j < i ==> !(#[trigger] method_name(c@, j) == Some("<init>"@) && (
                    method_desc(c@, j) matches Some(d) && strs(descs@).contains(d))),
            decreases c.methods.len() - i,
        {
            if opt_is(c.method_name(i), "<init>") {
                if let Some(d) = c.method_desc(i) {
                    if contains_string(descs, d) {
                        assert(has_ctor_among(c@, strs(descs@))) by {
                            assert(method_name(c@, i as int) == Some("<init>"@));
                        }
                        return true;
                    }
                }
            }
            i += 1;
        }
        false
    }

    /// The class that a simple name stands for inside the class being decompiled;
    /// `recorded` is the local class recorded under that name.
    pub fn local_class_internal(
        &self,
        simple: &str,
        recorded: Option<String>,
    ) -> (r: Option<String>)
        ensures
            opt_str(r) == local_class(
                opt_str(recorded),
                self.pc@.internal_name,
                simple@,
                self.pool@,
            ),
    {
        if recorded.is_some() {
            return recorded;
        }
        let cls = self.pc.internal_name.as_str();
        let mut member = String::from_str(cls);
        member.append("$");
        member.append(simple);
        if self.pool.get(member.as_str()).is_some() {
            return Some(member);
        }
        let first = numbered_name(cls, 1, simple);
        if self.pool.get(first.as_str()).is_some() {
            return Some(first);
        }
        let second = numbered_name(cls, 2, simple);
        if self.pool.get(second.as_str()).is_some() {
            return Some(second);
        }
        let third = numbered_name(cls, 3, simple);
        if self.pool.get(third.as_str()).is_some() {
            return Some(third);
        }
        None
    }

    /// The type that the functional method `sam` of `g` returns, where a value can be cast
    /// to it and the type arguments of `g` matter.
    pub fn sam_ret_cast(&self, g: &GType, sam: &str) -> (r: Option<TypeRef>)
        ensures
            opt_type(r) == sam_return(g@, sam@, self.pool@),
    {
        proof {
            reveal_with_fuel(GType::view, 2);
            reveal_with_fuel(crate::types::ClassSig::view, 2);
        }
        let cs = match g {
            GType::Class(cs) => cs,
            _ => {
                return None;
            },
        };
        let n = cs.parts.len();
        assert(sig_parts(cs.parts@).len() == n);
        if n == 0 {
            return None;
        }
        assert(sig_parts(cs.parts@).last() == cs.parts@[n - 1]@);
        let args = &cs.parts[n - 1].args;
        if args.len() == 0 {
            return None;
        }
        let name = cs.internal_name();
        match self.pool.get(name.as_str()) {
            Some(c) => match read_class_signature(c) {
                Some(sig) => sam_ret_in(c, &sig.params, args, sam),
                None => None,
            },
            None => None,
        }
    }
}

/// A recorded local class wins over everything that the pool holds.
pub proof fn law_recorded_class_wins(
    name: Seq<char>,
    cls: Seq<char>,
    simple: Seq<char>,
    pool: ClassPoolV,
)
    ensures
        local_class(Some(name), cls, simple, pool) == Some(name),
{
}

/// A class that a simple name stands for without being recorded is one of the pool.
pub proof fn law_found_class_is_known(cls: Seq<char>, simple: Seq<char>, pool: ClassPoolV)
    ensures
        local_class(None, cls, simple, pool) matches Some(name) ==> pool_get(pool, name) is Some,
{
}

} // verus!
