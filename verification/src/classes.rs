//! Class files: what the passes read of them, and the lookups they use.
use crate::types::str_eq;
use vstd::prelude::*;

verus! {

/// An entry of a constant pool. Indices point into the same pool.
#[derive(Debug)]
pub enum Constant {
    Utf8(String),
    Integer(i32),
    /// IEEE 754 bits.
    Float(u32),
    Long(i64),
    /// IEEE 754 bits.
    Double(u64),
    Class(u16),
    Str(u16),
    /// Class and name-and-type.
    Fieldref(u16, u16),
    Methodref(u16, u16),
    InterfaceMethodref(u16, u16),
    /// Name and descriptor.
    NameAndType(u16, u16),
    /// Reference kind and member.
    MethodHandle(u8, u16),
    MethodType(u16),
    /// Bootstrap method and name-and-type.
    InvokeDynamic(u16, u16),
    Dynamic(u16, u16),
    /// Slot 0, and the slot after a long or double.
    Unused,
}

/// Model of [`Constant`].
pub ghost enum ConstantV {
    Utf8(Seq<char>),
    Integer(i32),
    Float(u32),
    Long(i64),
    Double(u64),
    Class(u16),
    Str(u16),
    Fieldref(u16, u16),
    Methodref(u16, u16),
    InterfaceMethodref(u16, u16),
    NameAndType(u16, u16),
    MethodHandle(u8, u16),
    MethodType(u16),
    InvokeDynamic(u16, u16),
    Dynamic(u16, u16),
    Unused,
}

/// An attribute: the index of its name, and its bytes.
#[derive(Debug)]
pub struct Attribute {
    pub name_index: u16,
    pub info: Vec<u8>,
}

/// Model of [`Attribute`].
pub ghost struct AttributeV {
    pub name_index: u16,
    pub info: Seq<u8>,
}

/// A range of a local variable in a method's debug information.
#[derive(Debug, Clone, Copy)]
pub struct LocalRange {
    pub start_pc: u16,
    pub length: u16,
    pub name_index: u16,
    pub descriptor_index: u16,
    pub index: u16,
}

/// A field or method.
#[derive(Debug)]
pub struct Member {
    pub access_flags: u16,
    pub name_index: u16,
    pub descriptor_index: u16,
    pub attributes: Vec<Attribute>,
    /// Local variable ranges of a method's code, in the order of the file.
    pub local_ranges: Vec<LocalRange>,
}

/// Model of [`Member`].
pub ghost struct MemberV {
    pub access_flags: u16,
    pub name_index: u16,
    pub descriptor_index: u16,
    pub attributes: Seq<AttributeV>,
    pub local_ranges: Seq<LocalRange>,
}

/// A bootstrap method: its handle and static arguments.
#[derive(Debug)]
pub struct Bootstrap {
    pub method_ref: u16,
    pub arguments: Vec<u16>,
}

/// Model of [`Bootstrap`].
pub ghost struct BootstrapV {
    pub method_ref: u16,
    pub arguments: Seq<u16>,
}

/// A class file.
#[derive(Debug)]
pub struct PoolClass {
    pub internal_name: String,
    pub major_version: u16,
    pub access_flags: u16,
    pub super_class: u16,
    pub constants: Vec<Constant>,
    pub interfaces: Vec<u16>,
    pub fields: Vec<Member>,
    pub methods: Vec<Member>,
    pub attributes: Vec<Attribute>,
    pub bootstrap_methods: Vec<Bootstrap>,
}

/// Model of [`PoolClass`].
pub ghost struct PoolClassV {
    pub internal_name: Seq<char>,
    pub major_version: u16,
    pub access_flags: u16,
    pub super_class: u16,
    pub constants: Seq<ConstantV>,
    pub interfaces: Seq<u16>,
    pub fields: Seq<MemberV>,
    pub methods: Seq<MemberV>,
    pub attributes: Seq<AttributeV>,
    pub bootstrap_methods: Seq<BootstrapV>,
}

/// Where a method reference leads: the class that declares the method, and its index
/// there.
#[derive(Debug)]
pub struct Resolution {
    pub cls: String,
    pub name: String,
    pub desc: String,
    pub owner: String,
    pub method: usize,
}

/// Model of [`Resolution`].
pub ghost struct ResolutionV {
    pub cls: Seq<char>,
    pub name: Seq<char>,
    pub desc: Seq<char>,
    pub owner: Seq<char>,
    pub method: usize,
}

impl Resolution {
    pub open spec fn view(&self) -> ResolutionV {
        ResolutionV {
            cls: self.cls@,
            name: self.name@,
            desc: self.desc@,
            owner: self.owner@,
            method: self.method,
        }
    }
}

/// The classes that can be looked up by name, and the method references resolved among
/// them.
#[derive(Debug)]
pub struct ClassPool {
    pub classes: Vec<PoolClass>,
    pub resolved: Vec<Resolution>,
}

/// Model of [`ClassPool`].
pub ghost struct ClassPoolV {
    pub classes: Seq<PoolClassV>,
    pub resolved: Seq<ResolutionV>,
}

impl Constant {
    pub open spec fn view(&self) -> ConstantV {
        match self {
            Constant::Utf8(s) => ConstantV::Utf8(s@),
            Constant::Integer(i) => ConstantV::Integer(*i),
            Constant::Float(b) => ConstantV::Float(*b),
            Constant::Long(i) => ConstantV::Long(*i),
            Constant::Double(b) => ConstantV::Double(*b),
            Constant::Class(i) => ConstantV::Class(*i),
            Constant::Str(i) => ConstantV::Str(*i),
            Constant::Fieldref(i, j) => ConstantV::Fieldref(*i, *j),
            Constant::Methodref(i, j) => ConstantV::Methodref(*i, *j),
            Constant::InterfaceMethodref(i, j) => ConstantV::InterfaceMethodref(*i, *j),
            Constant::NameAndType(i, j) => ConstantV::NameAndType(*i, *j),
            Constant::MethodHandle(k, i) => ConstantV::MethodHandle(*k, *i),
            Constant::MethodType(i) => ConstantV::MethodType(*i),
            Constant::InvokeDynamic(i, j) => ConstantV::InvokeDynamic(*i, *j),
            Constant::Dynamic(i, j) => ConstantV::Dynamic(*i, *j),
            Constant::Unused => ConstantV::Unused,
        }
    }
}

impl Attribute {
    pub open spec fn view(&self) -> AttributeV {
        AttributeV { name_index: self.name_index, info: self.info@ }
    }
}

/// Model of a list of attributes.
pub open spec fn attributes(v: Seq<Attribute>) -> Seq<AttributeV> {
    Seq::new(v.len(), |i: int| v[i]@)
}

impl Member {
    pub open spec fn view(&self) -> MemberV {
        MemberV {
            access_flags: self.access_flags,
            name_index: self.name_index,
            descriptor_index: self.descriptor_index,
            attributes: attributes(self.attributes@),
            local_ranges: self.local_ranges@,
        }
    }
}

/// Model of a list of members.
pub open spec fn members(v: Seq<Member>) -> Seq<MemberV> {
    Seq::new(v.len(), |i: int| v[i]@)
}

impl Bootstrap {
    pub open spec fn view(&self) -> BootstrapV {
        BootstrapV { method_ref: self.method_ref, arguments: self.arguments@ }
    }
}

impl PoolClass {
    pub open spec fn view(&self) -> PoolClassV {
        PoolClassV {
            internal_name: self.internal_name@,
            major_version: self.major_version,
            access_flags: self.access_flags,
            super_class: self.super_class,
            constants: Seq::new(self.constants@.len(), |i: int| self.constants@[i]@),
            interfaces: self.interfaces@,
            fields: members(self.fields@),
            methods: members(self.methods@),
            attributes: attributes(self.attributes@),
            bootstrap_methods: Seq::new(
                self.bootstrap_methods@.len(),
                |i: int| self.bootstrap_methods@[i]@,
            ),
        }
    }
}

impl ClassPool {
    pub open spec fn view(&self) -> ClassPoolV {
        ClassPoolV {
            classes: Seq::new(self.classes@.len(), |i: int| self.classes@[i]@),
            resolved: Seq::new(self.resolved@.len(), |i: int| self.resolved@[i]@),
        }
    }
}

// ---------------------------------------------------------------------
// Constant pool.

/// The entry at `i`.
pub open spec fn constant_at(pc: PoolClassV, i: u16) -> ConstantV {
    if i < pc.constants.len() {
        pc.constants[i as int]
    } else {
        ConstantV::Unused
    }
}

/// The text at `i`.
pub open spec fn utf8_at(pc: PoolClassV, i: u16) -> Option<Seq<char>> {
    match constant_at(pc, i) {
        ConstantV::Utf8(s) => Some(s),
        _ => None,
    }
}

/// The name of the class constant at `i`.
pub open spec fn class_name_at(pc: PoolClassV, i: u16) -> Option<Seq<char>> {
    match constant_at(pc, i) {
        ConstantV::Class(n) => utf8_at(pc, n),
        _ => None,
    }
}

/// The text of the string constant at `i`.
pub open spec fn string_at(pc: PoolClassV, i: u16) -> Option<Seq<char>> {
    match constant_at(pc, i) {
        ConstantV::Str(n) => utf8_at(pc, n),
        _ => None,
    }
}

/// Name and descriptor of the name-and-type constant at `i`.
pub open spec fn name_and_type_at(pc: PoolClassV, i: u16) -> Option<(Seq<char>, Seq<char>)> {
    match constant_at(pc, i) {
        ConstantV::NameAndType(n, d) => match (utf8_at(pc, n), utf8_at(pc, d)) {
            (Some(a), Some(b)) => Some((a, b)),
            _ => None,
        },
        _ => None,
    }
}

/// Class, name and descriptor of the member constant at `i`.
pub open spec fn member_ref_at(
    pc: PoolClassV,
    i: u16,
) -> Option<(Seq<char>, Seq<char>, Seq<char>)> {
    match constant_at(pc, i) {
        ConstantV::Fieldref(c, t)
        | ConstantV::Methodref(c, t)
        | ConstantV::InterfaceMethodref(c, t) => match (
            class_name_at(pc, c),
            name_and_type_at(pc, t),
        ) {
            (Some(a), Some((b, d))) => Some((a, b, d)),
            _ => None,
        },
        _ => None,
    }
}

/// Model of an optional borrowed text.
pub open spec fn opt_text(o: Option<&str>) -> Option<Seq<char>> {
    match o {
        Some(s) => Some(s@),
        None => None,
    }
}

/// Equality of an optional text with a given one.
pub fn opt_is(o: Option<&str>, text: &str) -> (r: bool)
    ensures
        r == (opt_text(o) == Some(text@)),
{
    match o {
        Some(s) => str_eq(s, text),
        None => false,
    }
}

/// Big-endian index at the start of an attribute.
pub open spec fn leading_index(info: Seq<u8>) -> Option<u16> {
    if info.len() >= 2 {
        Some((info[0] * 256 + info[1]) as u16)
    } else {
        None
    }
}

/// Big-endian index at the start of an attribute.
pub fn leading_u16(info: &Vec<u8>) -> (r: Option<u16>)
    ensures
        r == leading_index(info@),
{
    if info.len() >= 2 {
        Some(info[0] as u16 * 256 + info[1] as u16)
    } else {
        None
    }
}

// ---------------------------------------------------------------------
// Members.

/// The name of method `i`.
pub open spec fn method_name(pc: PoolClassV, i: int) -> Option<Seq<char>> {
    if 0 <= i < pc.methods.len() {
        utf8_at(pc, pc.methods[i].name_index)
    } else {
        None
    }
}

/// The descriptor of method `i`.
pub open spec fn method_desc(pc: PoolClassV, i: int) -> Option<Seq<char>> {
    if 0 <= i < pc.methods.len() {
        utf8_at(pc, pc.methods[i].descriptor_index)
    } else {
        None
    }
}

/// The class's superclass.
pub open spec fn super_name(pc: PoolClassV) -> Option<Seq<char>> {
    class_name_at(pc, pc.super_class)
}

/// The name that a class goes by.
pub open spec fn own_name(pc: PoolClassV, this_class: u16) -> Seq<char> {
    match class_name_at(pc, this_class) {
        Some(name) => name,
        None => "Unknown"@,
    }
}

/// Access flag of interfaces.
pub const ACC_INTERFACE: u16 = 0x0200;

/// Access flag of compiler-made items.
pub const ACC_SYNTHETIC: u16 = 0x1000;

/// Access flag of enums.
pub const ACC_ENUM: u16 = 0x4000;

/// Access flag of static members.
pub const ACC_STATIC: u16 = 0x0008;

/// Access flag of methods with a variable number of arguments.
pub const ACC_VARARGS: u16 = 0x0080;

/// Access flag of native methods.
pub const ACC_NATIVE: u16 = 0x0100;

/// Access flag of abstract items.
pub const ACC_ABSTRACT: u16 = 0x0400;

/// Access flag of final items.
pub const ACC_FINAL: u16 = 0x0010;

/// A member has this access flag.
pub open spec fn member_flag(m: MemberV, flag: u16) -> bool {
    m.access_flags & flag != 0
}

impl Member {
    /// Whether this member has an access flag.
    pub fn has_flag(&self, flag: u16) -> (r: bool)
        ensures
            r == member_flag(self@, flag),
    {
        self.access_flags & flag != 0
    }
}

/// Attribute `a` is named `name`.
pub open spec fn named(pc: PoolClassV, a: AttributeV, name: Seq<char>) -> bool {
    utf8_at(pc, a.name_index) == Some(name)
}

/// Index of the first attribute named `name`.
pub open spec fn attr_index(pc: PoolClassV, attrs: Seq<AttributeV>, name: Seq<char>) -> Option<int>
    decreases attrs.len(),
{
    if attrs.len() == 0 {
        None
    } else {
        match attr_index(pc, attrs.drop_last(), name) {
            Some(i) => Some(i),
            None => if named(pc, attrs.last(), name) {
                Some(attrs.len() - 1)
            } else {
                None
            },
        }
    }
}

/// Bytes of the first attribute named `name`.
pub open spec fn attr_info(pc: PoolClassV, attrs: Seq<AttributeV>, name: Seq<char>) -> Option<
    Seq<u8>,
> {
    match attr_index(pc, attrs, name) {
        Some(i) => Some(attrs[i].info),
        None => None,
    }
}

/// The text that the first `Signature` attribute points to.
pub open spec fn signature_text(pc: PoolClassV, attrs: Seq<AttributeV>) -> Option<Seq<char>> {
    match attr_info(pc, attrs, "Signature"@) {
        Some(info) => match leading_index(info) {
            Some(i) => utf8_at(pc, i),
            None => None,
        },
        None => None,
    }
}

/// Index of the first class of that name.
pub open spec fn class_index(classes: Seq<PoolClassV>, name: Seq<char>) -> Option<int>
    decreases classes.len(),
{
    if classes.len() == 0 {
        None
    } else {
        match class_index(classes.drop_last(), name) {
            Some(i) => Some(i),
            None => if classes.last().internal_name == name {
                Some(classes.len() - 1)
            } else {
                None
            },
        }
    }
}

/// The class of that name.
pub open spec fn pool_get(pool: ClassPoolV, name: Seq<char>) -> Option<PoolClassV> {
    match class_index(pool.classes, name) {
        Some(i) => Some(pool.classes[i]),
        None => None,
    }
}

/// Index of the first own method with that name and descriptor.
pub open spec fn own_method(pc: PoolClassV, n: nat, name: Seq<char>, desc: Seq<char>) -> Option<int>
    decreases n,
{
    if n == 0 {
        None
    } else {
        match own_method(pc, (n - 1) as nat, name, desc) {
            Some(i) => Some(i),
            None => if method_name(pc, n - 1) == Some(name)
                && method_desc(pc, n - 1) == Some(desc) {
                Some(n - 1)
            } else {
                None
            },
        }
    }
}

/// An index found by [`class_index`] is one of the classes.
pub proof fn lemma_class_index(classes: Seq<PoolClassV>, name: Seq<char>)
    ensures
        class_index(classes, name) matches Some(i) ==> 0 <= i < classes.len()
            && classes[i].internal_name == name,
    decreases classes.len(),
{
    if classes.len() > 0 {
        lemma_class_index(classes.drop_last(), name);
    }
}

impl PoolClass {
    /// The entry at `i`.
    pub fn constant(&self, i: u16) -> (r: &Constant)
        ensures
            r@ == constant_at(self@, i),
    {
        if (i as usize) < self.constants.len() {
            &self.constants[i as usize]
        } else {
            &Constant::Unused
        }
    }

    /// The text at `i`.
    pub fn utf8(&self, i: u16) -> (r: Option<&str>)
        ensures
            opt_text(r) == utf8_at(self@, i),
    {
        match self.constant(i) {
            Constant::Utf8(s) => Some(s.as_str()),
            _ => None,
        }
    }

    /// The name of the class constant at `i`.
    pub fn class_name(&self, i: u16) -> (r: Option<&str>)
        ensures
            opt_text(r) == class_name_at(self@, i),
    {
        match self.constant(i) {
            Constant::Class(n) => self.utf8(*n),
            _ => None,
        }
    }

    /// The text of the string constant at `i`.
    pub fn string_value(&self, i: u16) -> (r: Option<&str>)
        ensures
            opt_text(r) == string_at(self@, i),
    {
        match self.constant(i) {
            Constant::Str(n) => self.utf8(*n),
            _ => None,
        }
    }

    /// Name and descriptor of the name-and-type constant at `i`.
    pub fn name_and_type(&self, i: u16) -> (r: Option<(&str, &str)>)
        ensures
            match r {
                Some((n, d)) => name_and_type_at(self@, i) == Some((n@, d@)),
                None => name_and_type_at(self@, i) is None,
            },
    {
        match self.constant(i) {
            Constant::NameAndType(n, d) => match (self.utf8(*n), self.utf8(*d)) {
                (Some(a), Some(b)) => Some((a, b)),
                _ => None,
            },
            _ => None,
        }
    }

    /// Class, name and descriptor of the member constant at `i`.
    pub fn member_ref(&self, i: u16) -> (r: Option<(&str, &str, &str)>)
        ensures
            match r {
                Some((c, n, d)) => member_ref_at(self@, i) == Some((c@, n@, d@)),
                None => member_ref_at(self@, i) is None,
            },
    {
        let (c, t) = match self.constant(i) {
            Constant::Fieldref(c, t) => (*c, *t),
            Constant::Methodref(c, t) => (*c, *t),
            Constant::InterfaceMethodref(c, t) => (*c, *t),
            _ => return None,
        };
        match (self.class_name(c), self.name_and_type(t)) {
            (Some(a), Some((b, d))) => Some((a, b, d)),
            _ => None,
        }
    }

    /// The name of method `i`.
    pub fn method_name(&self, i: usize) -> (r: Option<&str>)
        ensures
            opt_text(r) == method_name(self@, i as int),
    {
        if i < self.methods.len() {
            self.utf8(self.methods[i].name_index)
        } else {
            None
        }
    }

    /// The descriptor of method `i`.
    pub fn method_desc(&self, i: usize) -> (r: Option<&str>)
        ensures
            opt_text(r) == method_desc(self@, i as int),
    {
        if i < self.methods.len() {
            self.utf8(self.methods[i].descriptor_index)
        } else {
            None
        }
    }

    /// The superclass.
    pub fn super_name(&self) -> (r: Option<&str>)
        ensures
            opt_text(r) == super_name(self@),
    {
        self.class_name(self.super_class)
    }

    /// The name of the class constant at `this_class`, by which the class goes; `Unknown`
    /// where there is none.
    pub fn own_name(&self, this_class: u16) -> (r: String)
        ensures
            r@ == own_name(self@, this_class),
    {
        match self.class_name(this_class) {
            Some(name) => name.to_string(),
            None => String::from_str("Unknown"),
        }
    }

    /// Bytes of the first of `attrs` named `name`.
    pub fn attr_info<'a>(&self, attrs: &'a Vec<Attribute>, name: &str) -> (r: Option<&'a Vec<u8>>)
        ensures
            match r {
                Some(b) => attr_info(self@, attributes(attrs@), name@) == Some(b@),
                None => attr_info(self@, attributes(attrs@), name@) is None,
            },
    {
        let ghost all = attributes(attrs@);
        let mut i: usize = 0;
        while i < attrs.len()
            invariant
                i <= attrs.len(),
                all == attributes(attrs@),
                attr_index(self@, all.take(i as int), name@) is None,
            decreases attrs.len() - i,
        {
            assert(all.take(i + 1).drop_last() =~= all.take(i as int));
            if opt_is(self.utf8(attrs[i].name_index), name) {
                proof {
                    lemma_attr_index(self@, all, i + 1, name@);
                }
                return Some(&attrs[i].info);
            }
            i += 1;
        }
        assert(all.take(i as int) =~= all);
        None
    }

    /// The text that the first `Signature` attribute of `attrs` points to.
    pub fn signature_text(&self, attrs: &Vec<Attribute>) -> (r: Option<&str>)
        ensures
            opt_text(r) == signature_text(self@, attributes(attrs@)),
    {
        match self.attr_info(attrs, "Signature") {
            Some(info) => match leading_u16(info) {
                Some(i) => self.utf8(i),
                None => None,
            },
            None => None,
        }
    }

    /// Index of the first own method with that name and descriptor.
    pub fn find_own_method(&self, name: &str, desc: &str) -> (r: Option<usize>)
        ensures
            match r {
                Some(i) => own_method(self@, self@.methods.len(), name@, desc@) == Some(i as int),
                None => own_method(self@, self@.methods.len(), name@, desc@) is None,
            },
    {
        let mut i: usize = 0;
        while i < self.methods.len()
            invariant
                i <= self.methods.len(),
                own_method(self@, i as nat, name@, desc@) is None,
            decreases self.methods.len() - i,
        {
            if opt_is(self.method_name(i), name) && opt_is(self.method_desc(i), desc) {
                proof {
                    lemma_own_method(self@, (i + 1) as nat, self@.methods.len(), name@, desc@);
                }
                return Some(i);
            }
            i += 1;
        }
        None
    }
}

/// A first attribute found among the first `n` is the first of all.
proof fn lemma_attr_index(pc: PoolClassV, attrs: Seq<AttributeV>, n: int, name: Seq<char>)
    requires
        0 <= n <= attrs.len(),
        attr_index(pc, attrs.take(n), name) is Some,
    ensures
        attr_index(pc, attrs, name) == attr_index(pc, attrs.take(n), name),
    decreases attrs.len() - n,
{
    if n < attrs.len() {
        assert(attrs.take(n + 1).drop_last() =~= attrs.take(n));
        lemma_attr_index(pc, attrs, n + 1, name);
    } else {
        assert(attrs.take(n) =~= attrs);
    }
}

/// A first method found among the first `n` is the first of all.
proof fn lemma_own_method(pc: PoolClassV, n: nat, m: nat, name: Seq<char>, desc: Seq<char>)
    requires
        n <= m,
        own_method(pc, n, name, desc) is Some,
    ensures
        own_method(pc, m, name, desc) == own_method(pc, n, name, desc),
    decreases m - n,
{
    if n < m {
        lemma_own_method(pc, n, (m - 1) as nat, name, desc);
    }
}

/// A method that is found is one of the first `n`.
pub proof fn lemma_own_method_bound(pc: PoolClassV, n: nat, name: Seq<char>, desc: Seq<char>)
    ensures
        own_method(pc, n, name, desc) matches Some(i) ==> 0 <= i < n,
    decreases n,
{
    if n > 0 {
        lemma_own_method_bound(pc, (n - 1) as nat, name, desc);
    }
}

/// A first class found among the first `n` is the first of all.
proof fn lemma_class_prefix(classes: Seq<PoolClassV>, n: int, name: Seq<char>)
    requires
        0 <= n <= classes.len(),
        class_index(classes.take(n), name) is Some,
    ensures
        class_index(classes, name) == class_index(classes.take(n), name),
    decreases classes.len() - n,
{
    if n < classes.len() {
        assert(classes.take(n + 1).drop_last() =~= classes.take(n));
        lemma_class_prefix(classes, n + 1, name);
    } else {
        assert(classes.take(n) =~= classes);
    }
}

/// Index of the first resolution of that reference.
pub open spec fn resolution_index(
    l: Seq<ResolutionV>,
    cls: Seq<char>,
    name: Seq<char>,
    desc: Seq<char>,
) -> Option<int>
    decreases l.len(),
{
    if l.len() == 0 {
        None
    } else {
        match resolution_index(l.drop_last(), cls, name, desc) {
            Some(i) => Some(i),
            None => if l.last().cls == cls && l.last().name == name && l.last().desc == desc {
                Some(l.len() - 1)
            } else {
                None
            },
        }
    }
}

/// The class and the method that a reference leads to.
pub open spec fn resolved_method(
    pool: ClassPoolV,
    cls: Seq<char>,
    name: Seq<char>,
    desc: Seq<char>,
) -> Option<(PoolClassV, MemberV)> {
    match resolution_index(pool.resolved, cls, name, desc) {
        Some(i) => match pool_get(pool, pool.resolved[i].owner) {
            Some(pc) => if pool.resolved[i].method < pc.methods.len() {
                Some((pc, pc.methods[pool.resolved[i].method as int]))
            } else {
                None
            },
            None => None,
        },
        None => None,
    }
}

/// A first resolution found among the first `n` is the first of all.
proof fn lemma_resolution_index(
    l: Seq<ResolutionV>,
    n: int,
    cls: Seq<char>,
    name: Seq<char>,
    desc: Seq<char>,
)
    requires
        0 <= n <= l.len(),
        resolution_index(l.take(n), cls, name, desc) is Some,
    ensures
        resolution_index(l, cls, name, desc) == resolution_index(l.take(n), cls, name, desc),
    decreases l.len() - n,
{
    if n < l.len() {
        assert(l.take(n + 1).drop_last() =~= l.take(n));
        lemma_resolution_index(l, n + 1, cls, name, desc);
    } else {
        assert(l.take(n) =~= l);
    }
}

impl ClassPool {
    /// The class and the method that a reference leads to.
    #[verifier::loop_isolation(false)]
    pub fn resolve_method(&self, cls: &str, name: &str, desc: &str) -> (r: Option<
        (&PoolClass, &Member),
    >)
        ensures
            match r {
                Some((pc, m)) => resolved_method(self@, cls@, name@, desc@) == Some((pc@, m@)),
                None => resolved_method(self@, cls@, name@, desc@) is None,
            },
    {
        let ghost all = self@.resolved;
        let mut i: usize = 0;
        while i < self.resolved.len()
            invariant
                i <= self.resolved.len(),
                resolution_index(all.take(i as int), cls@, name@, desc@) is None,
            decreases self.resolved.len() - i,
        {
            assert(all.take(i + 1).drop_last() =~= all.take(i as int));
            assert(all.take(i + 1).last() == self.resolved@[i as int]@);
            let x = &self.resolved[i];
            if str_eq(x.cls.as_str(), cls) && str_eq(x.name.as_str(), name) && str_eq(
                x.desc.as_str(),
                desc,
            ) {
                proof {
                    lemma_resolution_index(all, i + 1, cls@, name@, desc@);
                }
                return match self.get(x.owner.as_str()) {
                    Some(pc) => if x.method < pc.methods.len() {
                        Some((pc, &pc.methods[x.method]))
                    } else {
                        None
                    },
                    None => None,
                };
            }
            i += 1;
        }
        assert(all.take(i as int) =~= all);
        None
    }

    /// The class of that name.
    pub fn get(&self, name: &str) -> (r: Option<&PoolClass>)
        ensures
            match r {
                Some(pc) => pool_get(self@, name@) == Some(pc@),
                None => pool_get(self@, name@) is None,
            },
    {
        let mut i: usize = 0;
        while i < self.classes.len()
            invariant
                i <= self.classes.len(),
                class_index(self@.classes.take(i as int), name@) is None,
            decreases self.classes.len() - i,
        {
            assert(self@.classes.take(i + 1).drop_last() =~= self@.classes.take(i as int));
            if str_eq(self.classes[i].internal_name.as_str(), name) {
                proof {
                    lemma_class_prefix(self@.classes, i + 1, name@);
                }
                return Some(&self.classes[i]);
            }
            i += 1;
        }
        assert(self@.classes.take(i as int) =~= self@.classes);
        None
    }
}

} // verus!
