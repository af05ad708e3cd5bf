//! Descriptor and signature text: parsing (by `jdc_core`) and rendering.
use crate::types::{
    generics, opt_desc, type_params, ClassSig, ClassSigPart, GType, GTypeV, JType, JTypeV,
    MethodDescriptor, MethodDescriptorV, TParam, TParamV, WildcardBound,
};
use jdc_core::types::{GenericType, JavaType, WildcardBound as CoreBound};
use vstd::prelude::*;

verus! {

/// Generic signature of a class.
#[derive(Debug, PartialEq)]
pub struct ClassSignature {
    pub params: Vec<TParam>,
    pub superclass: GType,
    pub interfaces: Vec<GType>,
}

/// Model of [`ClassSignature`].
pub ghost struct ClassSignatureV {
    pub params: Seq<TParamV>,
    pub superclass: GTypeV,
    pub interfaces: Seq<GTypeV>,
}

/// Generic signature of a method.
#[derive(Debug, PartialEq)]
pub struct MethodSignature {
    pub params: Vec<TParam>,
    pub args: Vec<GType>,
    pub ret: GType,
    pub throws: Vec<GType>,
}

/// Model of [`MethodSignature`].
pub ghost struct MethodSignatureV {
    pub params: Seq<TParamV>,
    pub args: Seq<GTypeV>,
    pub ret: GTypeV,
    pub throws: Seq<GTypeV>,
}

impl ClassSignature {
    pub open spec fn view(&self) -> ClassSignatureV {
        ClassSignatureV {
            params: type_params(self.params@),
            superclass: self.superclass@,
            interfaces: generics(self.interfaces@),
        }
    }
}

impl MethodSignature {
    pub open spec fn view(&self) -> MethodSignatureV {
        MethodSignatureV {
            params: type_params(self.params@),
            args: generics(self.args@),
            ret: self.ret@,
            throws: generics(self.throws@),
        }
    }
}

/// Model of an optional class signature.
pub open spec fn opt_class_sig(o: Option<ClassSignature>) -> Option<ClassSignatureV> {
    match o {
        Some(s) => Some(s@),
        None => None,
    }
}

/// Model of an optional method signature.
pub open spec fn opt_method_sig(o: Option<MethodSignature>) -> Option<MethodSignatureV> {
    match o {
        Some(s) => Some(s@),
        None => None,
    }
}

/// Model of an optional generic type.
pub open spec fn opt_generic(o: Option<GType>) -> Option<GTypeV> {
    match o {
        Some(g) => Some(g@),
        None => None,
    }
}

/// Model of an optional descriptor type.
pub open spec fn opt_java(o: Option<JType>) -> Option<JTypeV> {
    match o {
        Some(t) => Some(t@),
        None => None,
    }
}

// ---------------------------------------------------------------------
// Descriptor grammar.

/// Position of the first `;` at or after `i`.
pub open spec fn semicolon(s: Seq<char>, i: int) -> Option<int>
    decreases s.len() - i,
{
    if i < 0 || i >= s.len() {
        None
    } else if s[i] == ';' {
        Some(i)
    } else {
        semicolon(s, i + 1)
    }
}

/// The type that starts at `i`, and the position after it.
pub open spec fn type_at(s: Seq<char>, i: int) -> Option<(JTypeV, int)>
    decreases s.len() - i,
{
    if i < 0 || i >= s.len() {
        None
    } else if s[i] == 'V' {
        Some((JTypeV::Void, i + 1))
    } else if s[i] == 'Z' {
        Some((JTypeV::Boolean, i + 1))
    } else if s[i] == 'B' {
        Some((JTypeV::Byte, i + 1))
    } else if s[i] == 'C' {
        Some((JTypeV::Char, i + 1))
    } else if s[i] == 'S' {
        Some((JTypeV::Short, i + 1))
    } else if s[i] == 'I' {
        Some((JTypeV::Int, i + 1))
    } else if s[i] == 'F' {
        Some((JTypeV::Float, i + 1))
    } else if s[i] == 'J' {
        Some((JTypeV::Long, i + 1))
    } else if s[i] == 'D' {
        Some((JTypeV::Double, i + 1))
    } else if s[i] == '[' {
        match type_at(s, i + 1) {
            Some((t, n)) => Some((JTypeV::Array(Box::new(t)), n)),
            None => None,
        }
    } else if s[i] == 'L' {
        match semicolon(s, i + 1) {
            Some(e) => Some((JTypeV::Object(s.subrange(i + 1, e)), e + 1)),
            None => None,
        }
    } else {
        None
    }
}

/// The types from `i` up to the first `)` that stands where a type could start,
/// and the position after that bracket.
pub open spec fn arg_types(s: Seq<char>, i: int) -> Option<(Seq<JTypeV>, int)>
    decreases s.len() - i,
{
    if i < 0 || i >= s.len() {
        None
    } else if s[i] == ')' {
        Some((seq![], i + 1))
    } else {
        match type_at(s, i) {
            Some((t, n)) => if i < n <= s.len() {
                match arg_types(s, n) {
                    Some((ts, m)) => Some((seq![t] + ts, m)),
                    None => None,
                }
            } else {
                None
            },
            None => None,
        }
    }
}

/// A field descriptor is one type and nothing after it.
pub open spec fn field_desc(s: Seq<char>) -> Option<JTypeV> {
    match type_at(s, 0) {
        Some((t, n)) => if n == s.len() {
            Some(t)
        } else {
            None
        },
        None => None,
    }
}

/// A method descriptor is `(`, argument types, `)`, a return type and nothing
/// after it.
pub open spec fn method_descriptor(s: Seq<char>) -> Option<MethodDescriptorV> {
    if s.len() == 0 || s[0] != '(' {
        None
    } else {
        match arg_types(s, 1) {
            Some((args, i)) => match type_at(s, i) {
                Some((ret, n)) => if n == s.len() {
                    Some(MethodDescriptorV { args, ret })
                } else {
                    None
                },
                None => None,
            },
            None => None,
        }
    }
}

// ---------------------------------------------------------------------
// Calls into `jdc_core`.

/// The descriptor types of `jdc_core`.
#[verifier::external_type_specification]
#[verifier::external_body]
pub struct CoreJavaType(jdc_core::types::JavaType);

/// The generic types of `jdc_core`.
#[verifier::external_type_specification]
#[verifier::external_body]
pub struct CoreGenericType(jdc_core::types::GenericType);

/// The type parameters of `jdc_core`.
#[verifier::external_type_specification]
#[verifier::external_body]
pub struct CoreTypeParam(jdc_core::types::TypeParam);

/// Takes a `jdc_core` descriptor type apart, variant by variant.
#[verifier::external_body]
fn from_java_type(t: jdc_core::types::JavaType) -> JType {
    match t {
        JavaType::Void => JType::Void,
        JavaType::Boolean => JType::Boolean,
        JavaType::Byte => JType::Byte,
        JavaType::Char => JType::Char,
        JavaType::Short => JType::Short,
        JavaType::Int => JType::Int,
        JavaType::Float => JType::Float,
        JavaType::Long => JType::Long,
        JavaType::Double => JType::Double,
        JavaType::Object(n) => JType::Object(n),
        JavaType::Array(e) => JType::Array(Box::new(from_java_type(*e))),
    }
}

/// Takes a `jdc_core` generic type apart, variant by variant.
#[verifier::external_body]
fn from_generic(g: jdc_core::types::GenericType) -> GType {
    match g {
        GenericType::Primitive(c) => GType::Primitive(c),
        GenericType::Class(cs) => GType::Class(ClassSig { package: cs.package,
            parts: cs.parts.into_iter().map(|p| ClassSigPart { name: p.name,
                args: p.args.into_iter().map(from_generic).collect() }).collect() }),
        GenericType::Array(e) => GType::Array(Box::new(from_generic(*e))),
        GenericType::TypeVar(n) => GType::TypeVar(n),
        GenericType::Wildcard(w) => GType::Wildcard(match w {
            CoreBound::Any => WildcardBound::Any,
            CoreBound::Extends(e) => WildcardBound::Extends(Box::new(from_generic(*e))),
            CoreBound::Super(e) => WildcardBound::Super(Box::new(from_generic(*e))),
        }),
    }
}

/// Takes a `jdc_core` type parameter apart, field by field.
#[verifier::external_body]
fn from_type_param(p: jdc_core::types::TypeParam) -> TParam {
    TParam {
        name: p.name,
        class_bound: p.class_bound.map(from_generic),
        interface_bounds: p.interface_bounds.into_iter().map(from_generic).collect(),
    }
}

/// Calls `jdc_core::types::parse_field_descriptor`: `Some` exactly on the text of
/// one type.
#[verifier::external_body]
pub(crate) fn parse_field_descriptor(s: &str) -> (r: Option<JType>)
    ensures
        opt_java(r) == field_desc(s@),
{
    jdc_core::types::parse_field_descriptor(s).map(from_java_type)
}

/// Calls `jdc_core::types::parse_method_descriptor`: `Some` exactly on bracketed
/// argument types followed by a return type.
#[verifier::external_body]
pub(crate) fn parse_method_descriptor(s: &str) -> (r: Option<MethodDescriptor>)
    ensures
        opt_desc(r) == method_descriptor(s@),
{
    jdc_core::types::parse_method_descriptor(s).map(|d| MethodDescriptor {
        args: d.args.into_iter().map(from_java_type).collect(),
        ret: from_java_type(d.ret),
    })
}

/// What `jdc_core::types::parse_class_signature` reads from a text.
pub uninterp spec fn parsed_class_signature(text: Seq<char>) -> Option<ClassSignatureV>;

/// What `jdc_core::types::parse_method_signature` reads from a text.
pub uninterp spec fn parsed_method_signature(text: Seq<char>) -> Option<MethodSignatureV>;

/// What `jdc_core::types::parse_field_signature` reads from a text.
pub uninterp spec fn parsed_field_signature(text: Seq<char>) -> Option<GTypeV>;

/// Calls `jdc_core::types::parse_class_signature`; the result depends on the text
/// alone.
#[verifier::external_body]
pub(crate) fn parse_class_signature(s: &str) -> (r: Option<ClassSignature>)
    ensures
        opt_class_sig(r) == parsed_class_signature(s@),
{
    jdc_core::types::parse_class_signature(s).map(|c| ClassSignature {
        params: c.params.into_iter().map(from_type_param).collect(),
        superclass: from_generic(c.superclass),
        interfaces: c.interfaces.into_iter().map(from_generic).collect(),
    })
}

/// Calls `jdc_core::types::parse_method_signature`; the result depends on the text
/// alone.
#[verifier::external_body]
pub(crate) fn parse_method_signature(s: &str) -> (r: Option<MethodSignature>)
    ensures
        opt_method_sig(r) == parsed_method_signature(s@),
{
    jdc_core::types::parse_method_signature(s).map(|m| MethodSignature {
        params: m.params.into_iter().map(from_type_param).collect(),
        args: m.args.into_iter().map(from_generic).collect(),
        ret: from_generic(m.ret),
        throws: m.throws.into_iter().map(from_generic).collect(),
    })
}

/// Calls `jdc_core::types::parse_field_signature`; the result depends on the text
/// alone.
#[verifier::external_body]
pub(crate) fn parse_field_signature(s: &str) -> (r: Option<GType>)
    ensures
        opt_generic(r) == parsed_field_signature(s@),
{
    jdc_core::types::parse_field_signature(s).map(from_generic)
}

// ---------------------------------------------------------------------
// Rendering.

/// The descriptor text of a type.
pub open spec fn type_text(t: JTypeV) -> Seq<char>
    decreases t,
{
    match t {
        JTypeV::Void => seq!['V'],
        JTypeV::Boolean => seq!['Z'],
        JTypeV::Byte => seq!['B'],
        JTypeV::Char => seq!['C'],
        JTypeV::Short => seq!['S'],
        JTypeV::Int => seq!['I'],
        JTypeV::Float => seq!['F'],
        JTypeV::Long => seq!['J'],
        JTypeV::Double => seq!['D'],
        JTypeV::Object(n) => seq!['L'] + n + seq![';'],
        JTypeV::Array(e) => seq!['['] + type_text(*e),
    }
}

/// The descriptor texts of `ts`, joined.
pub open spec fn types_text(ts: Seq<JTypeV>) -> Seq<char>
    decreases ts.len(),
{
    if ts.len() == 0 {
        seq![]
    } else {
        types_text(ts.drop_last()) + type_text(ts.last())
    }
}

/// The text of a method descriptor.
pub open spec fn desc_text(d: MethodDescriptorV) -> Seq<char> {
    seq!['('] + types_text(d.args) + seq![')'] + type_text(d.ret)
}

impl JType {
    /// Descriptor text, added to the end of `out`.
    pub fn write_descriptor(&self, out: &mut String)
        ensures
            final(out)@ == old(out)@ + type_text(self@),
        decreases self,
    {
        proof {
            reveal_strlit("V");
            reveal_strlit("Z");
            reveal_strlit("B");
            reveal_strlit("C");
            reveal_strlit("S");
            reveal_strlit("I");
            reveal_strlit("F");
            reveal_strlit("J");
            reveal_strlit("D");
            reveal_strlit("L");
            reveal_strlit(";");
            reveal_strlit("[");
        }
        match self {
            JType::Void => out.append("V"),
            JType::Boolean => out.append("Z"),
            JType::Byte => out.append("B"),
            JType::Char => out.append("C"),
            JType::Short => out.append("S"),
            JType::Int => out.append("I"),
            JType::Float => out.append("F"),
            JType::Long => out.append("J"),
            JType::Double => out.append("D"),
            JType::Object(n) => {
                out.append("L");
                out.append(n.as_str());
                out.append(";");
            },
            JType::Array(e) => {
                out.append("[");
                e.write_descriptor(out);
            },
        }
        assert(out@ =~= old(out)@ + type_text(self@));
    }
}

impl MethodDescriptor {
    /// Descriptor text.
    pub fn text(&self) -> (r: String)
        ensures
            r@ == desc_text(self@),
    {
        proof {
            reveal_strlit("(");
            reveal_strlit(")");
        }
        let mut s: String = String::new();
        s.append("(");
        let ghost all = self@.args;
        let mut i: usize = 0;
        while i < self.args.len()
            invariant
                i <= self.args.len(),
                all == self@.args,
                s@ == seq!['('] + types_text(all.take(i as int)),
            decreases self.args.len() - i,
        {
            assert(all.take(i + 1).drop_last() =~= all.take(i as int));
            self.args[i].write_descriptor(&mut s);
            assert(s@ =~= seq!['('] + types_text(all.take(i + 1)));
            i += 1;
        }
        assert(all.take(i as int) =~= all);
        s.append(")");
        self.ret.write_descriptor(&mut s);
        assert(s@ =~= desc_text(self@));
        s
    }
}

/// Reading back a descriptor type gives the type, wherever the text stands, as
/// long as no class name in it holds a `;`.
pub proof fn law_type_text_reads_back(t: JTypeV, before: Seq<char>, after: Seq<char>)
    requires
        names_plain(t),
    ensures
        type_at(before + type_text(t) + after, before.len() as int) == Some(
            (t, (before.len() + type_text(t).len()) as int),
        ),
    decreases t,
{
    let s = before + type_text(t) + after;
    let i = before.len() as int;
    match t {
        JTypeV::Object(n) => {
            lemma_semicolon(s, i + 1, i + 1 + n.len());
            assert(s.subrange(i + 1, i + 1 + n.len()) =~= n);
        },
        JTypeV::Array(e) => {
            law_type_text_reads_back(*e, before + seq!['['], after);
            assert(before + seq!['['] + type_text(*e) + after =~= s);
        },
        _ => {},
    }
}

/// No class name inside `t` holds a `;`.
pub open spec fn names_plain(t: JTypeV) -> bool
    decreases t,
{
    match t {
        JTypeV::Object(n) => !n.contains(';'),
        JTypeV::Array(e) => names_plain(*e),
        _ => true,
    }
}

proof fn lemma_semicolon(s: Seq<char>, i: int, e: int)
    requires
        0 <= i <= e < s.len(),
        s[e] == ';',
        forall|j: int| i <= j < e ==> s[j] != ';',
    ensures
        semicolon(s, i) == Some(e),
    decreases e - i,
{
    if i < e {
        lemma_semicolon(s, i + 1, e);
    }
}

} // verus!
