//! Java types: erased descriptor types, generic signature types, and the
//! mathematical model the contracts speak of.
use vstd::prelude::*;

verus! {

/// A type as it appears in a descriptor (no generics).
#[derive(Debug, PartialEq)]
pub enum JType {
    Void,
    Boolean,
    Byte,
    Char,
    Short,
    Int,
    Float,
    Long,
    Double,
    /// Reference type, by internal name (`java/lang/String`).
    Object(String),
    Array(Box<JType>),
}

/// Model of [`JType`].
pub ghost enum JTypeV {
    Void,
    Boolean,
    Byte,
    Char,
    Short,
    Int,
    Float,
    Long,
    Double,
    Object(Seq<char>),
    Array(Box<JTypeV>),
}

/// A type inside a generic signature.
#[derive(Debug, PartialEq)]
pub enum GType {
    /// Base type, by its descriptor character.
    Primitive(char),
    Class(ClassSig),
    Array(Box<GType>),
    TypeVar(String),
    Wildcard(WildcardBound),
}

#[derive(Debug, PartialEq)]
pub enum WildcardBound {
    Any,
    Extends(Box<GType>),
    Super(Box<GType>),
}

/// A class type: `Ljava/util/Map<K,V>.Entry<X>;` has package `java/util` and
/// parts `Map<K,V>` and `Entry<X>`.
#[derive(Debug, PartialEq)]
pub struct ClassSig {
    pub package: String,
    pub parts: Vec<ClassSigPart>,
}

#[derive(Debug, PartialEq)]
pub struct ClassSigPart {
    pub name: String,
    pub args: Vec<GType>,
}

/// Model of [`GType`].
pub ghost enum GTypeV {
    Primitive(char),
    Class(ClassSigV),
    Array(Box<GTypeV>),
    TypeVar(Seq<char>),
    Wildcard(WildcardBoundV),
}

/// Model of [`WildcardBound`].
pub ghost enum WildcardBoundV {
    Any,
    Extends(Box<GTypeV>),
    Super(Box<GTypeV>),
}

/// Model of [`ClassSig`].
pub ghost struct ClassSigV {
    pub package: Seq<char>,
    pub parts: Seq<ClassSigPartV>,
}

/// Model of [`ClassSigPart`].
pub ghost struct ClassSigPartV {
    pub name: Seq<char>,
    pub args: Seq<GTypeV>,
}

/// A parsed method descriptor.
#[derive(Debug, PartialEq)]
pub struct MethodDescriptor {
    pub args: Vec<JType>,
    pub ret: JType,
}

/// Model of [`MethodDescriptor`].
pub ghost struct MethodDescriptorV {
    pub args: Seq<JTypeV>,
    pub ret: JTypeV,
}

/// A type reference that may carry generics.
#[derive(Debug, PartialEq)]
pub enum TypeRef {
    /// Descriptor type.
    J(JType),
    /// Generic signature type.
    G(GType),
}

/// Model of [`TypeRef`].
pub ghost enum TypeRefV {
    J(JTypeV),
    G(GTypeV),
}

/// A declared type parameter of a class or method.
#[derive(Debug, PartialEq)]
pub struct TParam {
    pub name: String,
    pub class_bound: Option<GType>,
    pub interface_bounds: Vec<GType>,
}

/// Model of [`TParam`].
pub ghost struct TParamV {
    pub name: Seq<char>,
    pub class_bound: Option<GTypeV>,
    pub interface_bounds: Seq<GTypeV>,
}

// ---------------------------------------------------------------------
// Views.

/// Model of a list of strings.
pub open spec fn strs(v: Seq<String>) -> Seq<Seq<char>> {
    Seq::new(v.len(), |i: int| v[i]@)
}

/// Model of an optional string.
pub open spec fn opt_str(o: Option<String>) -> Option<Seq<char>> {
    match o {
        Some(s) => Some(s@),
        None => None,
    }
}

impl JType {
    pub open spec fn view(&self) -> JTypeV
        decreases self,
    {
        match self {
            JType::Void => JTypeV::Void,
            JType::Boolean => JTypeV::Boolean,
            JType::Byte => JTypeV::Byte,
            JType::Char => JTypeV::Char,
            JType::Short => JTypeV::Short,
            JType::Int => JTypeV::Int,
            JType::Float => JTypeV::Float,
            JType::Long => JTypeV::Long,
            JType::Double => JTypeV::Double,
            JType::Object(n) => JTypeV::Object(n@),
            JType::Array(t) => JTypeV::Array(Box::new(t.view())),
        }
    }
}

/// Model of a list of descriptor types.
pub open spec fn java_types(v: Seq<JType>) -> Seq<JTypeV> {
    Seq::new(v.len(), |i: int| v[i]@)
}

impl MethodDescriptor {
    pub open spec fn view(&self) -> MethodDescriptorV {
        MethodDescriptorV { args: java_types(self.args@), ret: self.ret@ }
    }
}

/// Model of an optional method descriptor.
pub open spec fn opt_desc(o: Option<MethodDescriptor>) -> Option<MethodDescriptorV> {
    match o {
        Some(d) => Some(d@),
        None => None,
    }
}

impl GType {
    pub open spec fn view(&self) -> GTypeV
        decreases self,
    {
        match self {
            GType::Primitive(c) => GTypeV::Primitive(*c),
            GType::Class(cs) => GTypeV::Class(cs.view()),
            GType::Array(t) => GTypeV::Array(Box::new(t.view())),
            GType::TypeVar(n) => GTypeV::TypeVar(n@),
            GType::Wildcard(w) => GTypeV::Wildcard(w.view()),
        }
    }
}

impl WildcardBound {
    pub open spec fn view(&self) -> WildcardBoundV
        decreases self,
    {
        match self {
            WildcardBound::Any => WildcardBoundV::Any,
            WildcardBound::Extends(t) => WildcardBoundV::Extends(Box::new(t.view())),
            WildcardBound::Super(t) => WildcardBoundV::Super(Box::new(t.view())),
        }
    }
}

impl ClassSig {
    pub open spec fn view(&self) -> ClassSigV
        decreases self,
    {
        ClassSigV { package: self.package@, parts: sig_parts(self.parts@) }
    }
}

impl ClassSigPart {
    pub open spec fn view(&self) -> ClassSigPartV
        decreases self,
    {
        ClassSigPartV { name: self.name@, args: generics(self.args@) }
    }
}

/// Model of a list of generic types.
pub open spec fn generics(v: Seq<GType>) -> Seq<GTypeV>
    decreases v,
{
    Seq::new(v.len(), |i: int| if 0 <= i < v.len() { v[i].view() } else { arbitrary() })
}

/// Model of the parts of a class type.
pub open spec fn sig_parts(v: Seq<ClassSigPart>) -> Seq<ClassSigPartV>
    decreases v,
{
    Seq::new(v.len(), |i: int| if 0 <= i < v.len() { v[i].view() } else { arbitrary() })
}

impl TypeRef {
    pub open spec fn view(&self) -> TypeRefV {
        match self {
            TypeRef::J(t) => TypeRefV::J(t@),
            TypeRef::G(g) => TypeRefV::G(g@),
        }
    }
}

/// Model of an optional type reference.
pub open spec fn opt_type(o: Option<TypeRef>) -> Option<TypeRefV> {
    match o {
        Some(t) => Some(t@),
        None => None,
    }
}

impl TParam {
    pub open spec fn view(&self) -> TParamV {
        TParamV {
            name: self.name@,
            class_bound: match self.class_bound {
                Some(g) => Some(g@),
                None => None,
            },
            interface_bounds: generics(self.interface_bounds@),
        }
    }
}

/// Model of a list of type parameters.
pub open spec fn type_params(v: Seq<TParam>) -> Seq<TParamV> {
    Seq::new(v.len(), |i: int| v[i]@)
}

// ---------------------------------------------------------------------
// Strings.

/// Text equality.
pub fn str_eq(a: &str, b: &str) -> (r: bool)
    ensures
        r == (a@ == b@),
{
    let x: String = a.to_owned();
    let y: String = b.to_owned();
    x == y
}

/// `text` starts with the characters of `prefix`.
pub open spec fn has_prefix(text: Seq<char>, prefix: Seq<char>) -> bool {
    prefix.len() <= text.len() && text.subrange(0, prefix.len() as int) == prefix
}

/// Whether `a` starts with `p`.
pub fn starts_with(a: &str, p: &str) -> (r: bool)
    ensures
        r == has_prefix(a@, p@),
{
    let n = p.unicode_len();
    if a.unicode_len() < n {
        return false;
    }
    let mut i: usize = 0;
    while i < n
        invariant
            n == p@.len(),
            n <= a@.len(),
            i <= n,
            forall|j: int| 0 <= j < i ==> a@[j] == p@[j],
        decreases n - i,
    {
        if a.get_char(i) != p.get_char(i) {
            assert(a@.subrange(0, n as int)[i as int] != p@[i as int]);
            return false;
        }
        i += 1;
    }
    assert(a@.subrange(0, n as int) =~= p@);
    true
}

/// Copy of a list of strings.
pub fn clone_strings(v: &Vec<String>) -> (r: Vec<String>)
    ensures
        strs(r@) == strs(v@),
{
    let mut r: Vec<String> = Vec::new();
    let mut i: usize = 0;
    while i < v.len()
        invariant
            i <= v.len(),
            r.len() == i,
            forall|j: int| 0 <= j < i ==> (#[trigger] r@[j])@ == v@[j]@,
        decreases v.len() - i,
    {
        r.push(v[i].clone());
        i += 1;
    }
    assert(strs(r@) =~= strs(v@));
    r
}

/// Equality of lists of strings.
pub fn strings_eq(a: &Vec<String>, b: &Vec<String>) -> (r: bool)
    ensures
        r == (strs(a@) == strs(b@)),
{
    if a.len() != b.len() {
        assert(strs(a@).len() != strs(b@).len());
        return false;
    }
    let mut i: usize = 0;
    while i < a.len()
        invariant
            i <= a.len(),
            a.len() == b.len(),
            forall|j: int| 0 <= j < i ==> (#[trigger] a@[j])@ == b@[j]@,
        decreases a.len() - i,
    {
        if a[i] != b[i] {
            assert(strs(a@)[i as int] != strs(b@)[i as int]);
            return false;
        }
        i += 1;
    }
    assert(strs(a@) =~= strs(b@));
    true
}

/// Copy of an optional string.
pub fn clone_opt_string(o: &Option<String>) -> (r: Option<String>)
    ensures
        opt_str(r) == opt_str(*o),
{
    match o {
        Some(s) => Some(s.clone()),
        None => None,
    }
}

/// Equality of optional strings.
pub fn opt_string_eq(a: &Option<String>, b: &Option<String>) -> (r: bool)
    ensures
        r == (opt_str(*a) == opt_str(*b)),
{
    match (a, b) {
        (Some(x), Some(y)) => *x == *y,
        (None, None) => true,
        _ => false,
    }
}

// ---------------------------------------------------------------------
// Copies.

impl Clone for JType {
    fn clone(&self) -> (r: Self)
        ensures
            r@ == self@,
        decreases self,
    {
        match self {
            JType::Void => JType::Void,
            JType::Boolean => JType::Boolean,
            JType::Byte => JType::Byte,
            JType::Char => JType::Char,
            JType::Short => JType::Short,
            JType::Int => JType::Int,
            JType::Float => JType::Float,
            JType::Long => JType::Long,
            JType::Double => JType::Double,
            JType::Object(n) => JType::Object(n.clone()),
            JType::Array(t) => JType::Array(Box::new((**t).clone())),
        }
    }
}

/// Copy of a list of descriptor types.
pub fn clone_java_types(v: &Vec<JType>) -> (r: Vec<JType>)
    ensures
        java_types(r@) == java_types(v@),
{
    let mut r: Vec<JType> = Vec::new();
    let mut i: usize = 0;
    while i < v.len()
        invariant
            i <= v.len(),
            r.len() == i,
            forall|j: int| 0 <= j < i ==> (#[trigger] r@[j])@ == v@[j]@,
        decreases v.len() - i,
    {
        r.push(v[i].clone());
        i += 1;
    }
    assert(java_types(r@) =~= java_types(v@));
    r
}

impl Clone for MethodDescriptor {
    fn clone(&self) -> (r: Self)
        ensures
            r@ == self@,
    {
        MethodDescriptor { args: clone_java_types(&self.args), ret: self.ret.clone() }
    }
}

/// Copy of an optional method descriptor.
pub fn clone_opt_desc(o: &Option<MethodDescriptor>) -> (r: Option<MethodDescriptor>)
    ensures
        opt_desc(r) == opt_desc(*o),
{
    match o {
        Some(d) => Some(d.clone()),
        None => None,
    }
}

impl Clone for GType {
    fn clone(&self) -> (r: Self)
        ensures
            r@ == self@,
    {
        clone_generic(self)
    }
}

/// Copy of a generic type.
pub fn clone_generic(g: &GType) -> (r: GType)
    ensures
        r@ == g@,
    decreases g,
{
    match g {
        GType::Primitive(c) => GType::Primitive(*c),
        GType::Class(cs) => GType::Class(clone_class_sig(cs)),
        GType::Array(t) => GType::Array(Box::new(clone_generic(t))),
        GType::TypeVar(n) => GType::TypeVar(n.clone()),
        GType::Wildcard(w) => GType::Wildcard(clone_wildcard(w)),
    }
}

/// Copy of a wildcard bound.
pub fn clone_wildcard(w: &WildcardBound) -> (r: WildcardBound)
    ensures
        r@ == w@,
    decreases w,
{
    match w {
        WildcardBound::Any => WildcardBound::Any,
        WildcardBound::Extends(t) => WildcardBound::Extends(Box::new(clone_generic(t))),
        WildcardBound::Super(t) => WildcardBound::Super(Box::new(clone_generic(t))),
    }
}

/// Copy of a class type.
pub fn clone_class_sig(cs: &ClassSig) -> (r: ClassSig)
    ensures
        r@ == cs@,
    decreases cs,
{
    let mut parts: Vec<ClassSigPart> = Vec::new();
    let mut i: usize = 0;
    while i < cs.parts.len()
        invariant
            i <= cs.parts.len(),
            parts.len() == i,
            forall|j: int| 0 <= j < i ==> (#[trigger] parts@[j])@ == cs.parts@[j]@,
        decreases cs.parts.len() - i,
    {
        let p = &cs.parts[i];
        assert(decreases_to!(cs => cs.parts@));
        assert(decreases_to!(cs.parts@ => cs.parts@[i as int]));
        let q = ClassSigPart { name: p.name.clone(), args: clone_generics(&p.args) };
        parts.push(q);
        i += 1;
    }
    assert(sig_parts(parts@) =~= sig_parts(cs.parts@));
    ClassSig { package: cs.package.clone(), parts }
}

/// Copy of a list of generic types.
pub fn clone_generics(v: &Vec<GType>) -> (r: Vec<GType>)
    ensures
        generics(r@) == generics(v@),
    decreases v,
{
    let mut r: Vec<GType> = Vec::new();
    let mut i: usize = 0;
    while i < v.len()
        invariant
            i <= v.len(),
            r.len() == i,
            forall|j: int| 0 <= j < i ==> (#[trigger] r@[j])@ == v@[j]@,
        decreases v.len() - i,
    {
        r.push(clone_generic(&v[i]));
        i += 1;
    }
    assert(generics(r@) =~= generics(v@));
    r
}

impl Clone for TypeRef {
    fn clone(&self) -> (r: Self)
        ensures
            r@ == self@,
    {
        match self {
            TypeRef::J(t) => TypeRef::J(t.clone()),
            TypeRef::G(g) => TypeRef::G(clone_generic(g)),
        }
    }
}

/// Copy of an optional type reference.
pub fn clone_opt_type(o: &Option<TypeRef>) -> (r: Option<TypeRef>)
    ensures
        opt_type(r) == opt_type(*o),
{
    match o {
        Some(t) => Some(t.clone()),
        None => None,
    }
}

// ---------------------------------------------------------------------
// Equality.

impl JType {
    /// Structural equality.
    pub fn same(&self, other: &JType) -> (r: bool)
        ensures
            r == (self@ == other@),
        decreases self,
    {
        match (self, other) {
            (JType::Void, JType::Void) => true,
            (JType::Boolean, JType::Boolean) => true,
            (JType::Byte, JType::Byte) => true,
            (JType::Char, JType::Char) => true,
            (JType::Short, JType::Short) => true,
            (JType::Int, JType::Int) => true,
            (JType::Float, JType::Float) => true,
            (JType::Long, JType::Long) => true,
            (JType::Double, JType::Double) => true,
            (JType::Object(a), JType::Object(b)) => *a == *b,
            (JType::Array(a), JType::Array(b)) => a.same(b),
            _ => false,
        }
    }

    /// Whether this is the class named `name`.
    pub fn is_object(&self, name: &str) -> (r: bool)
        ensures
            r == (self@ == JTypeV::Object(name@)),
    {
        match self {
            JType::Object(n) => str_eq(n.as_str(), name),
            _ => false,
        }
    }

    /// Number of local or operand slots a value of this type takes.
    pub fn slot_size(&self) -> (r: usize)
        ensures
            r == slot_size(self@),
    {
        match self {
            JType::Long | JType::Double => 2,
            JType::Void => 0,
            _ => 1,
        }
    }

    /// Whether a value takes two slots.
    pub fn is_wide(&self) -> (r: bool)
        ensures
            r == is_wide(self@),
    {
        matches!(self, JType::Long | JType::Double)
    }
}

/// Slots taken by a value of type `t`.
pub open spec fn slot_size(t: JTypeV) -> nat {
    match t {
        JTypeV::Long | JTypeV::Double => 2,
        JTypeV::Void => 0,
        _ => 1,
    }
}

/// Two-slot types.
pub open spec fn is_wide(t: JTypeV) -> bool {
    t is Long || t is Double
}

/// Equality of lists of descriptor types.
pub fn java_types_eq(a: &Vec<JType>, b: &Vec<JType>) -> (r: bool)
    ensures
        r == (java_types(a@) == java_types(b@)),
{
    if a.len() != b.len() {
        assert(java_types(a@).len() != java_types(b@).len());
        return false;
    }
    let mut i: usize = 0;
    while i < a.len()
        invariant
            i <= a.len(),
            a.len() == b.len(),
            forall|j: int| 0 <= j < i ==> (#[trigger] a@[j])@ == b@[j]@,
        decreases a.len() - i,
    {
        if !a[i].same(&b[i]) {
            assert(java_types(a@)[i as int] != java_types(b@)[i as int]);
            return false;
        }
        i += 1;
    }
    assert(java_types(a@) =~= java_types(b@));
    true
}

impl MethodDescriptor {
    /// Structural equality.
    pub fn same(&self, other: &MethodDescriptor) -> (r: bool)
        ensures
            r == (self@ == other@),
    {
        java_types_eq(&self.args, &other.args) && self.ret.same(&other.ret)
    }
}

/// Equality of optional method descriptors.
pub fn opt_desc_eq(a: &Option<MethodDescriptor>, b: &Option<MethodDescriptor>) -> (r: bool)
    ensures
        r == (opt_desc(*a) == opt_desc(*b)),
{
    match (a, b) {
        (Some(x), Some(y)) => x.same(y),
        (None, None) => true,
        _ => false,
    }
}

/// Equality of generic types.
pub fn generic_eq(a: &GType, b: &GType) -> (r: bool)
    ensures
        r == (a@ == b@),
    decreases a,
{
    match (a, b) {
        (GType::Primitive(x), GType::Primitive(y)) => *x == *y,
        (GType::Class(x), GType::Class(y)) => class_sig_eq(x, y),
        (GType::Array(x), GType::Array(y)) => generic_eq(x, y),
        (GType::TypeVar(x), GType::TypeVar(y)) => *x == *y,
        (GType::Wildcard(x), GType::Wildcard(y)) => wildcard_eq(x, y),
        _ => false,
    }
}

/// Equality of wildcard bounds.
pub fn wildcard_eq(a: &WildcardBound, b: &WildcardBound) -> (r: bool)
    ensures
        r == (a@ == b@),
    decreases a,
{
    match (a, b) {
        (WildcardBound::Any, WildcardBound::Any) => true,
        (WildcardBound::Extends(s), WildcardBound::Extends(t)) => generic_eq(s, t),
        (WildcardBound::Super(s), WildcardBound::Super(t)) => generic_eq(s, t),
        _ => false,
    }
}

/// Equality of class types.
pub fn class_sig_eq(a: &ClassSig, b: &ClassSig) -> (r: bool)
    ensures
        r == (a@ == b@),
    decreases a,
{
    if a.package != b.package {
        return false;
    }
    if a.parts.len() != b.parts.len() {
        assert(sig_parts(a.parts@).len() != sig_parts(b.parts@).len());
        return false;
    }
    let mut i: usize = 0;
    while i < a.parts.len()
        invariant
            i <= a.parts.len(),
            a.parts.len() == b.parts.len(),
            a.package@ == b.package@,
            forall|j: int| 0 <= j < i ==> (#[trigger] a.parts@[j])@ == b.parts@[j]@,
        decreases a.parts.len() - i,
    {
        assert(decreases_to!(a => a.parts@));
        assert(decreases_to!(a.parts@ => a.parts@[i as int]));
        let same = a.parts[i].name == b.parts[i].name && generics_eq(
            &a.parts[i].args,
            &b.parts[i].args,
        );
        if !same {
            assert(sig_parts(a.parts@)[i as int] != sig_parts(b.parts@)[i as int]);
            return false;
        }
        i += 1;
    }
    assert(sig_parts(a.parts@) =~= sig_parts(b.parts@));
    true
}

/// Equality of lists of generic types.
pub fn generics_eq(a: &Vec<GType>, b: &Vec<GType>) -> (r: bool)
    ensures
        r == (generics(a@) == generics(b@)),
    decreases a,
{
    if a.len() != b.len() {
        assert(generics(a@).len() != generics(b@).len());
        return false;
    }
    let mut i: usize = 0;
    while i < a.len()
        invariant
            i <= a.len(),
            a.len() == b.len(),
            forall|j: int| 0 <= j < i ==> (#[trigger] a@[j])@ == b@[j]@,
        decreases a.len() - i,
    {
        if !generic_eq(&a[i], &b[i]) {
            assert(generics(a@)[i as int] != generics(b@)[i as int]);
            return false;
        }
        i += 1;
    }
    assert(generics(a@) =~= generics(b@));
    true
}

impl TypeRef {
    /// Structural equality.
    pub fn same(&self, other: &TypeRef) -> (r: bool)
        ensures
            r == (self@ == other@),
    {
        match (self, other) {
            (TypeRef::J(a), TypeRef::J(b)) => a.same(b),
            (TypeRef::G(a), TypeRef::G(b)) => generic_eq(a, b),
            _ => false,
        }
    }
}

/// Equality of optional type references.
pub fn opt_type_eq(a: &Option<TypeRef>, b: &Option<TypeRef>) -> (r: bool)
    ensures
        r == (opt_type(*a) == opt_type(*b)),
{
    match (a, b) {
        (Some(x), Some(y)) => x.same(y),
        (None, None) => true,
        _ => false,
    }
}

// ---------------------------------------------------------------------
// Erasure.

/// The names of `parts`, joined by `$`.
pub open spec fn join_parts(parts: Seq<ClassSigPartV>) -> Seq<char>
    decreases parts.len(),
{
    if parts.len() == 0 {
        seq![]
    } else if parts.len() == 1 {
        parts[0].name
    } else {
        join_parts(parts.drop_last()) + seq!['$'] + parts.last().name
    }
}

/// Internal name of a class type (`java/util/Map$Entry`).
pub open spec fn internal_name(cs: ClassSigV) -> Seq<char> {
    if cs.package.len() == 0 {
        join_parts(cs.parts)
    } else {
        cs.package + seq!['/'] + join_parts(cs.parts)
    }
}

/// The class `java/lang/Object`.
pub open spec fn object_type() -> JTypeV {
    JTypeV::Object("java/lang/Object"@)
}

/// Base type for a descriptor character; anything else reads as `void`.
pub open spec fn base_type(c: char) -> JTypeV {
    if c == 'Z' {
        JTypeV::Boolean
    } else if c == 'B' {
        JTypeV::Byte
    } else if c == 'C' {
        JTypeV::Char
    } else if c == 'S' {
        JTypeV::Short
    } else if c == 'I' {
        JTypeV::Int
    } else if c == 'F' {
        JTypeV::Float
    } else if c == 'J' {
        JTypeV::Long
    } else if c == 'D' {
        JTypeV::Double
    } else {
        JTypeV::Void
    }
}

/// Erasure of a generic type. Type variables and wildcards erase to `Object`.
pub open spec fn erase_generic(g: GTypeV) -> JTypeV
    decreases g,
{
    match g {
        GTypeV::Primitive(c) => base_type(c),
        GTypeV::Class(cs) => JTypeV::Object(internal_name(cs)),
        GTypeV::Array(t) => JTypeV::Array(Box::new(erase_generic(*t))),
        GTypeV::TypeVar(_) => object_type(),
        GTypeV::Wildcard(_) => object_type(),
    }
}

/// Erasure of a type reference.
pub open spec fn erase(t: TypeRefV) -> JTypeV {
    match t {
        TypeRefV::J(j) => j,
        TypeRefV::G(g) => erase_generic(g),
    }
}

/// The class named `name`.
pub fn object(name: &str) -> (r: JType)
    ensures
        r@ == JTypeV::Object(name@),
{
    JType::Object(name.to_owned())
}

impl ClassSig {
    /// Internal name, nested parts joined by `$`.
    pub fn internal_name(&self) -> (r: String)
        ensures
            r@ == internal_name(self@),
    {
        let mut s: String = String::new();
        let mut i: usize = 0;
        while i < self.parts.len()
            invariant
                i <= self.parts.len(),
                s@ == join_parts(sig_parts(self.parts@).subrange(0, i as int)),
            decreases self.parts.len() - i,
        {
            let ghost before = sig_parts(self.parts@).subrange(0, i as int);
            let ghost after = sig_parts(self.parts@).subrange(0, i + 1);
            assert(after.drop_last() =~= before);
            proof {
                reveal_strlit("$");
                assert("$"@ =~= seq!['$']);
            }
            if i > 0 {
                s.append("$");
            }
            s.append(self.parts[i].name.as_str());
            assert(s@ =~= join_parts(after));
            i += 1;
        }
        assert(sig_parts(self.parts@).subrange(0, i as int) =~= sig_parts(self.parts@));
        if self.package.as_str().is_empty() {
            return s;
        }
        proof {
            reveal_strlit("/");
            assert("/"@ =~= seq!['/']);
        }
        let mut r: String = self.package.clone();
        r.append("/");
        r.append(s.as_str());
        r
    }
}

impl GType {
    /// Erased type.
    pub fn erased(&self) -> (r: JType)
        ensures
            r@ == erase_generic(self@),
        decreases self,
    {
        match self {
            GType::Primitive(c) => match *c {
                'Z' => JType::Boolean,
                'B' => JType::Byte,
                'C' => JType::Char,
                'S' => JType::Short,
                'I' => JType::Int,
                'F' => JType::Float,
                'J' => JType::Long,
                'D' => JType::Double,
                _ => JType::Void,
            },
            GType::Class(cs) => JType::Object(cs.internal_name()),
            GType::Array(t) => JType::Array(Box::new(t.erased())),
            GType::TypeVar(_) => object("java/lang/Object"),
            GType::Wildcard(_) => object("java/lang/Object"),
        }
    }
}

impl TypeRef {
    /// Erased type.
    pub fn erased(&self) -> (r: JType)
        ensures
            r@ == erase(self@),
    {
        match self {
            TypeRef::J(t) => t.clone(),
            TypeRef::G(g) => g.erased(),
        }
    }

    /// Whether a value takes two slots.
    pub fn is_wide(&self) -> (r: bool)
        ensures
            r == is_wide(erase(self@)),
    {
        self.erased().is_wide()
    }
}

} // verus!
