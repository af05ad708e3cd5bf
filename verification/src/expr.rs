//! Expressions: the executable tree, its model, copies and equality.
use crate::types::{
    clone_opt_desc, clone_opt_string, clone_opt_type, clone_strings, erase, object, object_type,
    opt_desc, opt_desc_eq, opt_str, opt_string_eq, opt_type, opt_type_eq, strings_eq, strs, JType,
    JTypeV, MethodDescriptor, MethodDescriptorV, TypeRef, TypeRefV,
};
use vstd::prelude::*;

verus! {

/// Unary operators.
#[derive(Debug, Clone, Copy, PartialEq, Eq, Structural)]
pub enum UnOp {
    Neg,
    Not,
    BitNot,
}

/// Binary operators. `RefEq` and `RefNe` compare references.
#[derive(Debug, Clone, Copy, PartialEq, Eq, Structural)]
pub enum BinOp {
    Add,
    Sub,
    Mul,
    Div,
    Rem,
    Shl,
    Shr,
    Ushr,
    And,
    Or,
    Xor,
    Eq,
    Ne,
    Lt,
    Ge,
    Gt,
    Le,
    RefEq,
    RefNe,
    LogAnd,
    LogOr,
    StrCat,
}

/// The comparison with the opposite outcome.
pub open spec fn inverse(op: BinOp) -> Option<BinOp> {
    match op {
        BinOp::Eq | BinOp::RefEq => Some(BinOp::Ne),
        BinOp::Ne | BinOp::RefNe => Some(BinOp::Eq),
        BinOp::Lt => Some(BinOp::Ge),
        BinOp::Ge => Some(BinOp::Lt),
        BinOp::Gt => Some(BinOp::Le),
        BinOp::Le => Some(BinOp::Gt),
        _ => None,
    }
}

impl BinOp {
    /// The comparison with the opposite outcome; `None` for anything else.
    pub fn invert(self) -> (r: Option<BinOp>)
        ensures
            r == inverse(self),
    {
        match self {
            BinOp::Eq | BinOp::RefEq => Some(BinOp::Ne),
            BinOp::Ne | BinOp::RefNe => Some(BinOp::Eq),
            BinOp::Lt => Some(BinOp::Ge),
            BinOp::Ge => Some(BinOp::Lt),
            BinOp::Gt => Some(BinOp::Le),
            BinOp::Le => Some(BinOp::Gt),
            _ => None,
        }
    }
}

/// Assignment operators.
#[derive(Debug, Clone, Copy, PartialEq, Eq, Structural)]
pub enum AssignOp {
    Plain,
    Add,
    Sub,
    Mul,
    Div,
    Rem,
    Shl,
    Shr,
    Ushr,
    And,
    Or,
    Xor,
}

/// How a lambda site is written.
#[derive(Debug, Clone, Copy, PartialEq, Eq, Structural)]
pub enum LambdaKind {
    Lambda,
    MethodRef,
}

/// Constants. Floating values are held by their IEEE 754 bits.
#[derive(Debug, PartialEq)]
pub enum ConstVal {
    Int(i32),
    Long(i64),
    Float(u32),
    Double(u64),
    Str(String),
    Null,
    ClassLit(TypeRef),
}

/// Model of [`ConstVal`].
pub ghost enum ConstValV {
    Int(i32),
    Long(i64),
    Float(u32),
    Double(u64),
    Str(Seq<char>),
    Null,
    ClassLit(TypeRefV),
}

/// Static argument of a bootstrap method.
#[derive(Debug, PartialEq)]
pub enum BsmArg {
    Str(String),
    Cls(String),
    Int(i32),
    Other,
}

/// Model of [`BsmArg`].
pub ghost enum BsmArgV {
    Str(Seq<char>),
    Cls(Seq<char>),
    Int(i32),
    Other,
}

/// A piece of a string concatenation.
#[derive(Debug, PartialEq)]
pub enum ConcatPart {
    Str(Expr),
    Const(String),
}

/// Model of [`ConcatPart`].
pub ghost enum ConcatPartV {
    Str(ExprV),
    Const(Seq<char>),
}

/// A lambda or method reference site: the functional interface method, the
/// implementation it is bound to, and what it captures.
#[derive(Debug, PartialEq)]
pub struct LambdaExpr {
    pub kind: LambdaKind,
    pub sam_name: String,
    pub sam_desc: MethodDescriptor,
    pub inst_sam_desc: Option<MethodDescriptor>,
    pub impl_owner: String,
    pub impl_name: String,
    pub impl_desc: MethodDescriptor,
    pub impl_is_static: bool,
    pub captures: Vec<Expr>,
    pub param_names: Vec<String>,
    pub ref_receiver: Option<String>,
    pub capture_snaps: Vec<(u32, u32, String)>,
}

/// Model of [`LambdaExpr`].
pub ghost struct LambdaExprV {
    pub kind: LambdaKind,
    pub sam_name: Seq<char>,
    pub sam_desc: MethodDescriptorV,
    pub inst_sam_desc: Option<MethodDescriptorV>,
    pub impl_owner: Seq<char>,
    pub impl_name: Seq<char>,
    pub impl_desc: MethodDescriptorV,
    pub impl_is_static: bool,
    pub captures: Seq<ExprV>,
    pub param_names: Seq<Seq<char>>,
    pub ref_receiver: Option<Seq<char>>,
    pub capture_snaps: Seq<(u32, u32, Seq<char>)>,
}

/// Expressions.
#[derive(Debug, PartialEq)]
pub enum Expr {
    Const(ConstVal),
    Local { var: u32, ty: TypeRef },
    This,
    New { cls: String, ty: TypeRef, args: Vec<Expr>, raw: bool },
    NewArray { elem: TypeRef, dims: Vec<Expr>, trailing_dims: u8, init: Option<Vec<Expr>> },
    NewMultiArray { ty: TypeRef, dims: Vec<Expr> },
    Field { owner: Option<Box<Expr>>, cls: String, name: String, ty: TypeRef, is_static: bool },
    Method {
        owner: Option<Box<Expr>>,
        cls: String,
        name: String,
        desc: MethodDescriptor,
        args: Vec<Expr>,
        is_static: bool,
        is_interface: bool,
        is_special: bool,
        is_super: bool,
        is_dynamic: bool,
        type_args: Vec<String>,
    },
    ArrayIndex { array: Box<Expr>, index: Box<Expr> },
    Cast { ty: TypeRef, e: Box<Expr> },
    InstanceOf { e: Box<Expr>, ty: TypeRef },
    Un { op: UnOp, e: Box<Expr> },
    Bin { op: BinOp, l: Box<Expr>, r: Box<Expr>, ty: Option<TypeRef> },
    Cond { c: Box<Expr>, t: Box<Expr>, f: Box<Expr> },
    Assign { target: Box<Expr>, op: AssignOp, value: Box<Expr> },
    PreIncDec { e: Box<Expr>, delta: i64, wide: bool },
    PostIncDec { e: Box<Expr>, delta: i64, wide: bool },
    Lambda(Box<LambdaExpr>),
    StringConcat(Vec<ConcatPart>),
    Raw(String),
    RawT(String, TypeRef),
    Invokedynamic {
        name: String,
        desc: MethodDescriptor,
        args: Vec<Expr>,
        bsm_text: String,
        bsm_static_args: Vec<BsmArg>,
    },
    AnonNew { cls: String, base: TypeRef, args: Vec<Expr>, body: String },
}

/// Model of [`Expr`].
pub ghost enum ExprV {
    Const(ConstValV),
    Local { var: u32, ty: TypeRefV },
    This,
    New { cls: Seq<char>, ty: TypeRefV, args: Seq<ExprV>, raw: bool },
    NewArray { elem: TypeRefV, dims: Seq<ExprV>, trailing_dims: u8, init: Option<Seq<ExprV>> },
    NewMultiArray { ty: TypeRefV, dims: Seq<ExprV> },
    Field {
        owner: Option<Box<ExprV>>,
        cls: Seq<char>,
        name: Seq<char>,
        ty: TypeRefV,
        is_static: bool,
    },
    Method {
        owner: Option<Box<ExprV>>,
        cls: Seq<char>,
        name: Seq<char>,
        desc: MethodDescriptorV,
        args: Seq<ExprV>,
        is_static: bool,
        is_interface: bool,
        is_special: bool,
        is_super: bool,
        is_dynamic: bool,
        type_args: Seq<Seq<char>>,
    },
    ArrayIndex { array: Box<ExprV>, index: Box<ExprV> },
    Cast { ty: TypeRefV, e: Box<ExprV> },
    InstanceOf { e: Box<ExprV>, ty: TypeRefV },
    Un { op: UnOp, e: Box<ExprV> },
    Bin { op: BinOp, l: Box<ExprV>, r: Box<ExprV>, ty: Option<TypeRefV> },
    Cond { c: Box<ExprV>, t: Box<ExprV>, f: Box<ExprV> },
    Assign { target: Box<ExprV>, op: AssignOp, value: Box<ExprV> },
    PreIncDec { e: Box<ExprV>, delta: i64, wide: bool },
    PostIncDec { e: Box<ExprV>, delta: i64, wide: bool },
    Lambda(Box<LambdaExprV>),
    StringConcat(Seq<ConcatPartV>),
    Raw(Seq<char>),
    RawT(Seq<char>, TypeRefV),
    Invokedynamic {
        name: Seq<char>,
        desc: MethodDescriptorV,
        args: Seq<ExprV>,
        bsm_text: Seq<char>,
        bsm_static_args: Seq<BsmArgV>,
    },
    AnonNew { cls: Seq<char>, base: TypeRefV, args: Seq<ExprV>, body: Seq<char> },
}

// ---------------------------------------------------------------------
// Views.

impl ConstVal {
    pub open spec fn view(&self) -> ConstValV {
        match self {
            ConstVal::Int(i) => ConstValV::Int(*i),
            ConstVal::Long(i) => ConstValV::Long(*i),
            ConstVal::Float(b) => ConstValV::Float(*b),
            ConstVal::Double(b) => ConstValV::Double(*b),
            ConstVal::Str(s) => ConstValV::Str(s@),
            ConstVal::Null => ConstValV::Null,
            ConstVal::ClassLit(t) => ConstValV::ClassLit(t@),
        }
    }
}

impl BsmArg {
    pub open spec fn view(&self) -> BsmArgV {
        match self {
            BsmArg::Str(s) => BsmArgV::Str(s@),
            BsmArg::Cls(s) => BsmArgV::Cls(s@),
            BsmArg::Int(i) => BsmArgV::Int(*i),
            BsmArg::Other => BsmArgV::Other,
        }
    }
}

/// Model of a list of snapshot renames.
pub open spec fn snaps(v: Seq<(u32, u32, String)>) -> Seq<(u32, u32, Seq<char>)> {
    Seq::new(v.len(), |i: int| (v[i].0, v[i].1, v[i].2@))
}

impl ConcatPart {
    pub open spec fn view(&self) -> ConcatPartV
        decreases self,
    {
        match self {
            ConcatPart::Str(e) => ConcatPartV::Str(e.view()),
            ConcatPart::Const(s) => ConcatPartV::Const(s@),
        }
    }
}

impl LambdaExpr {
    pub open spec fn view(&self) -> LambdaExprV
        decreases self,
    {
        LambdaExprV {
            kind: self.kind,
            sam_name: self.sam_name@,
            sam_desc: self.sam_desc@,
            inst_sam_desc: opt_desc(self.inst_sam_desc),
            impl_owner: self.impl_owner@,
            impl_name: self.impl_name@,
            impl_desc: self.impl_desc@,
            impl_is_static: self.impl_is_static,
            captures: exprs(self.captures@),
            param_names: strs(self.param_names@),
            ref_receiver: opt_str(self.ref_receiver),
            capture_snaps: snaps(self.capture_snaps@),
        }
    }
}

impl Expr {
    pub open spec fn view(&self) -> ExprV
        decreases self,
    {
        match self {
            Expr::Const(c) => ExprV::Const(c.view()),
            Expr::Local { var, ty } => ExprV::Local { var: *var, ty: ty@ },
            Expr::This => ExprV::This,
            Expr::New { cls, ty, args, raw } => ExprV::New {
                cls: cls@,
                ty: ty@,
                args: exprs(args@),
                raw: *raw,
            },
            Expr::NewArray { elem, dims, trailing_dims, init } => ExprV::NewArray {
                elem: elem@,
                dims: exprs(dims@),
                trailing_dims: *trailing_dims,
                init: opt_exprs(*init),
            },
            Expr::NewMultiArray { ty, dims } => ExprV::NewMultiArray {
                ty: ty@,
                dims: exprs(dims@),
            },
            Expr::Field { owner, cls, name, ty, is_static } => ExprV::Field {
                owner: opt_box(*owner),
                cls: cls@,
                name: name@,
                ty: ty@,
                is_static: *is_static,
            },
            Expr::Method {
                owner,
                cls,
                name,
                desc,
                args,
                is_static,
                is_interface,
                is_special,
                is_super,
                is_dynamic,
                type_args,
            } => ExprV::Method {
                owner: opt_box(*owner),
                cls: cls@,
                name: name@,
                desc: desc@,
                args: exprs(args@),
                is_static: *is_static,
                is_interface: *is_interface,
                is_special: *is_special,
                is_super: *is_super,
                is_dynamic: *is_dynamic,
                type_args: strs(type_args@),
            },
            Expr::ArrayIndex { array, index } => ExprV::ArrayIndex {
                array: Box::new(array.view()),
                index: Box::new(index.view()),
            },
            Expr::Cast { ty, e } => ExprV::Cast { ty: ty@, e: Box::new(e.view()) },
            Expr::InstanceOf { e, ty } => ExprV::InstanceOf { e: Box::new(e.view()), ty: ty@ },
            Expr::Un { op, e } => ExprV::Un { op: *op, e: Box::new(e.view()) },
            Expr::Bin { op, l, r, ty } => ExprV::Bin {
                op: *op,
                l: Box::new(l.view()),
                r: Box::new(r.view()),
                ty: opt_type(*ty),
            },
            Expr::Cond { c, t, f } => ExprV::Cond {
                c: Box::new(c.view()),
                t: Box::new(t.view()),
                f: Box::new(f.view()),
            },
            Expr::Assign { target, op, value } => ExprV::Assign {
                target: Box::new(target.view()),
                op: *op,
                value: Box::new(value.view()),
            },
            Expr::PreIncDec { e, delta, wide } => ExprV::PreIncDec {
                e: Box::new(e.view()),
                delta: *delta,
                wide: *wide,
            },
            Expr::PostIncDec { e, delta, wide } => ExprV::PostIncDec {
                e: Box::new(e.view()),
                delta: *delta,
                wide: *wide,
            },
            Expr::Lambda(l) => ExprV::Lambda(Box::new(l.view())),
            Expr::StringConcat(parts) => ExprV::StringConcat(concat_parts(parts@)),
            Expr::Raw(text) => ExprV::Raw(text@),
            Expr::RawT(text, ty) => ExprV::RawT(text@, ty@),
            Expr::Invokedynamic {
                name,
                desc,
                args,
                bsm_text,
                bsm_static_args,
            } => ExprV::Invokedynamic {
                name: name@,
                desc: desc@,
                args: exprs(args@),
                bsm_text: bsm_text@,
                bsm_static_args: bsm_args(bsm_static_args@),
            },
            Expr::AnonNew { cls, base, args, body } => ExprV::AnonNew {
                cls: cls@,
                base: base@,
                args: exprs(args@),
                body: body@,
            },
        }
    }
}

// ---------------------------------------------------------------------
// Copies and equality.

/// Bits of a single-precision NaN.
pub open spec fn nan32(b: u32) -> bool {
    b % 0x8000_0000 > 0x7f80_0000
}

/// Bits of a double-precision NaN.
pub open spec fn nan64(b: u64) -> bool {
    b % 0x8000_0000_0000_0000 > 0x7ff0_0000_0000_0000
}

/// Equality of constants; floating values compare as numbers.
pub open spec fn same_const(a: ConstValV, b: ConstValV) -> bool {
    match (a, b) {
        (ConstValV::Float(x), ConstValV::Float(y)) => !nan32(x) && !nan32(y) && (x == y || (x
            % 0x8000_0000 == 0 && y % 0x8000_0000 == 0)),
        (ConstValV::Double(x), ConstValV::Double(y)) => !nan64(x) && !nan64(y) && (x == y || (x
            % 0x8000_0000_0000_0000 == 0 && y % 0x8000_0000_0000_0000 == 0)),
        _ => a == b,
    }
}

impl Clone for ConstVal {
    fn clone(&self) -> (r: Self)
        ensures
            r@ == self@,
    {
        match self {
            ConstVal::Int(i) => ConstVal::Int(*i),
            ConstVal::Long(i) => ConstVal::Long(*i),
            ConstVal::Float(b) => ConstVal::Float(*b),
            ConstVal::Double(b) => ConstVal::Double(*b),
            ConstVal::Str(s) => ConstVal::Str(s.clone()),
            ConstVal::Null => ConstVal::Null,
            ConstVal::ClassLit(t) => ConstVal::ClassLit(t.clone()),
        }
    }
}

impl ConstVal {
    /// Equality; floating values compare as numbers.
    pub fn same(&self, other: &ConstVal) -> (r: bool)
        ensures
            r == same_const(self@, other@),
    {
        match (self, other) {
            (ConstVal::Int(x), ConstVal::Int(y)) => *x == *y,
            (ConstVal::Long(x), ConstVal::Long(y)) => *x == *y,
            (ConstVal::Float(x), ConstVal::Float(y)) => *x % 0x8000_0000 <= 0x7f80_0000 && *y
                % 0x8000_0000 <= 0x7f80_0000 && (*x == *y || (*x % 0x8000_0000 == 0 && *y
                % 0x8000_0000 == 0)),
            (ConstVal::Double(x), ConstVal::Double(y)) => *x % 0x8000_0000_0000_0000
                <= 0x7ff0_0000_0000_0000 && *y % 0x8000_0000_0000_0000 <= 0x7ff0_0000_0000_0000
                && (*x == *y || (*x % 0x8000_0000_0000_0000 == 0 && *y % 0x8000_0000_0000_0000
                == 0)),
            (ConstVal::Str(x), ConstVal::Str(y)) => *x == *y,
            (ConstVal::Null, ConstVal::Null) => true,
            (ConstVal::ClassLit(x), ConstVal::ClassLit(y)) => x.same(y),
            _ => false,
        }
    }
}

impl Clone for BsmArg {
    fn clone(&self) -> (r: Self)
        ensures
            r@ == self@,
    {
        match self {
            BsmArg::Str(s) => BsmArg::Str(s.clone()),
            BsmArg::Cls(s) => BsmArg::Cls(s.clone()),
            BsmArg::Int(i) => BsmArg::Int(*i),
            BsmArg::Other => BsmArg::Other,
        }
    }
}

impl BsmArg {
    /// Equality.
    pub fn same(&self, other: &BsmArg) -> (r: bool)
        ensures
            r == (self@ == other@),
    {
        match (self, other) {
            (BsmArg::Str(x), BsmArg::Str(y)) => *x == *y,
            (BsmArg::Cls(x), BsmArg::Cls(y)) => *x == *y,
            (BsmArg::Int(x), BsmArg::Int(y)) => *x == *y,
            (BsmArg::Other, BsmArg::Other) => true,
            _ => false,
        }
    }
}

/// Model of a list of bootstrap arguments.
pub open spec fn bsm_args(v: Seq<BsmArg>) -> Seq<BsmArgV>
{
    Seq::new(v.len(), |i: int| if 0 <= i < v.len() { v[i].view() } else { arbitrary() })
}

/// Copy of a list of bootstrap arguments.
pub fn clone_bsm_args(v: &Vec<BsmArg>) -> (r: Vec<BsmArg>)
    ensures
        bsm_args(r@) == bsm_args(v@),
{
    let mut r: Vec<BsmArg> = Vec::new();
    let mut i: usize = 0;
    while i < v.len()
        invariant
            i <= v.len(),
            r.len() == i,
            forall|j: int| 0 <= j < i ==> (#[trigger] r@[j])@ == v@[j]@,
        decreases v.len() - i,
    {
        r.push(v[i].clone());
        i += 1;
    }
    assert(bsm_args(r@) =~= bsm_args(v@));
    r
}

/// Equality of lists of bootstrap arguments.
pub fn bsm_args_eq(a: &Vec<BsmArg>, b: &Vec<BsmArg>) -> (r: bool)
    ensures
        r == (bsm_args(a@) == bsm_args(b@)),
{
    if a.len() != b.len() {
        assert(bsm_args(a@).len() != bsm_args(b@).len());
        return false;
    }
    let mut i: usize = 0;
    while i < a.len()
        invariant
            i <= a.len(),
            a.len() == b.len(),
            forall|j: int| 0 <= j < i ==> #[trigger] bsm_args(a@)[j] == bsm_args(b@)[j],
        decreases a.len() - i,
    {
        if !(a[i].same(&b[i])) {
            assert(bsm_args(a@)[i as int] != bsm_args(b@)[i as int]);
            return false;
        }
        i += 1;
    }
    assert(bsm_args(a@) =~= bsm_args(b@));
    true
}

/// Copy of a list of snapshot renames.
pub fn clone_snaps(v: &Vec<(u32, u32, String)>) -> (r: Vec<(u32, u32, String)>)
    ensures
        snaps(r@) == snaps(v@),
{
    let mut r: Vec<(u32, u32, String)> = Vec::new();
    let mut i: usize = 0;
    while i < v.len()
        invariant
            i <= v.len(),
            r.len() == i,
            forall|j: int| 0 <= j < i ==> #[trigger] snaps(r@)[j] == snaps(v@)[j],
        decreases v.len() - i,
    {
        let ghost before = r@;
        r.push((v[i].0, v[i].1, v[i].2.clone()));
        assert forall|j: int| 0 <= j < i + 1 implies #[trigger] snaps(r@)[j] == snaps(v@)[j] by {
            if j < i {
                assert(snaps(before)[j] == snaps(v@)[j]);
            }
        }
        i += 1;
    }
    assert(snaps(r@) =~= snaps(v@));
    r
}

/// Equality of lists of snapshot renames.
pub fn snaps_eq(a: &Vec<(u32, u32, String)>, b: &Vec<(u32, u32, String)>) -> (r: bool)
    ensures
        r == (snaps(a@) == snaps(b@)),
{
    if a.len() != b.len() {
        assert(snaps(a@).len() != snaps(b@).len());
        return false;
    }
    let mut i: usize = 0;
    while i < a.len()
        invariant
            i <= a.len(),
            a.len() == b.len(),
            forall|j: int| 0 <= j < i ==> #[trigger] snaps(a@)[j] == snaps(b@)[j],
        decreases a.len() - i,
    {
        if !(a[i].0 == b[i].0 && a[i].1 == b[i].1 && a[i].2 == b[i].2) {
            assert(snaps(a@)[i as int] != snaps(b@)[i as int]);
            return false;
        }
        i += 1;
    }
    assert(snaps(a@) =~= snaps(b@));
    true
}

/// Copy of a `Expr`.
pub fn clone_expr(e: &Expr) -> (r: Expr)
    ensures
        r@ == e@,
    decreases e,
{
    match e {
        Expr::Const(c) => Expr::Const(c.clone()),
        Expr::Local { var, ty } => Expr::Local { var: *var, ty: ty.clone() },
        Expr::This => Expr::This,
        Expr::New { cls, ty, args, raw } => Expr::New {
            cls: cls.clone(),
            ty: ty.clone(),
            args: clone_exprs(args),
            raw: *raw,
        },
        Expr::NewArray { elem, dims, trailing_dims, init } => Expr::NewArray {
            elem: elem.clone(),
            dims: clone_exprs(dims),
            trailing_dims: *trailing_dims,
            init: clone_opt_exprs(init),
        },
        Expr::NewMultiArray { ty, dims } => Expr::NewMultiArray {
            ty: ty.clone(),
            dims: clone_exprs(dims),
        },
        Expr::Field { owner, cls, name, ty, is_static } => Expr::Field {
            owner: clone_opt_box(owner),
            cls: cls.clone(),
            name: name.clone(),
            ty: ty.clone(),
            is_static: *is_static,
        },
        Expr::Method {
            owner,
            cls,
            name,
            desc,
            args,
            is_static,
            is_interface,
            is_special,
            is_super,
            is_dynamic,
            type_args,
        } => Expr::Method {
            owner: clone_opt_box(owner),
            cls: cls.clone(),
            name: name.clone(),
            desc: desc.clone(),
            args: clone_exprs(args),
            is_static: *is_static,
            is_interface: *is_interface,
            is_special: *is_special,
            is_super: *is_super,
            is_dynamic: *is_dynamic,
            type_args: clone_strings(type_args),
        },
        Expr::ArrayIndex { array, index } => Expr::ArrayIndex {
            array: Box::new(clone_expr(array)),
            index: Box::new(clone_expr(index)),
        },
        Expr::Cast { ty, e } => Expr::Cast { ty: ty.clone(), e: Box::new(clone_expr(e)) },
        Expr::InstanceOf { e, ty } => Expr::InstanceOf {
            e: Box::new(clone_expr(e)),
            ty: ty.clone(),
        },
        Expr::Un { op, e } => Expr::Un { op: *op, e: Box::new(clone_expr(e)) },
        Expr::Bin { op, l, r, ty } => Expr::Bin {
            op: *op,
            l: Box::new(clone_expr(l)),
            r: Box::new(clone_expr(r)),
            ty: clone_opt_type(ty),
        },
        Expr::Cond { c, t, f } => Expr::Cond {
            c: Box::new(clone_expr(c)),
            t: Box::new(clone_expr(t)),
            f: Box::new(clone_expr(f)),
        },
        Expr::Assign { target, op, value } => Expr::Assign {
            target: Box::new(clone_expr(target)),
            op: *op,
            value: Box::new(clone_expr(value)),
        },
        Expr::PreIncDec { e, delta, wide } => Expr::PreIncDec {
            e: Box::new(clone_expr(e)),
            delta: *delta,
            wide: *wide,
        },
        Expr::PostIncDec { e, delta, wide } => Expr::PostIncDec {
            e: Box::new(clone_expr(e)),
            delta: *delta,
            wide: *wide,
        },
        Expr::Lambda(l) => Expr::Lambda(Box::new(clone_lambda(l))),
        Expr::StringConcat(parts) => Expr::StringConcat(clone_parts(parts)),
        Expr::Raw(text) => Expr::Raw(text.clone()),
        Expr::RawT(text, ty) => Expr::RawT(text.clone(), ty.clone()),
        Expr::Invokedynamic { name, desc, args, bsm_text, bsm_static_args } => Expr::Invokedynamic {
            name: name.clone(),
            desc: desc.clone(),
            args: clone_exprs(args),
            bsm_text: bsm_text.clone(),
            bsm_static_args: clone_bsm_args(bsm_static_args),
        },
        Expr::AnonNew { cls, base, args, body } => Expr::AnonNew {
            cls: cls.clone(),
            base: base.clone(),
            args: clone_exprs(args),
            body: body.clone(),
        },
    }
}

impl Clone for Expr {
    fn clone(&self) -> (r: Self)
        ensures
            r@ == self@,
    {
        clone_expr(self)
    }
}

/// Copy of a `LambdaExpr`.
pub fn clone_lambda(e: &LambdaExpr) -> (r: LambdaExpr)
    ensures
        r@ == e@,
    decreases e,
{
    LambdaExpr {
        kind: e.kind,
        sam_name: e.sam_name.clone(),
        sam_desc: e.sam_desc.clone(),
        inst_sam_desc: clone_opt_desc(&e.inst_sam_desc),
        impl_owner: e.impl_owner.clone(),
        impl_name: e.impl_name.clone(),
        impl_desc: e.impl_desc.clone(),
        impl_is_static: e.impl_is_static,
        captures: clone_exprs(&e.captures),
        param_names: clone_strings(&e.param_names),
        ref_receiver: clone_opt_string(&e.ref_receiver),
        capture_snaps: clone_snaps(&e.capture_snaps),
    }
}

/// Equality of two `Expr` models, floating constants compared by value.
pub open spec fn same_expr(a: ExprV, b: ExprV) -> bool
    decreases a,
{
    match (a, b) {
        (ExprV::Const(c1), ExprV::Const(c2)) => {
            &&& same_const(c1, c2)
        },
        (ExprV::Local { var: var1, ty: ty1 }, ExprV::Local { var: var2, ty: ty2 }) => {
            &&& var1 == var2
            &&& ty1 == ty2
        },
        (ExprV::This, ExprV::This) => true,
        (
            ExprV::New { cls: cls1, ty: ty1, args: args1, raw: raw1 },
            ExprV::New { cls: cls2, ty: ty2, args: args2, raw: raw2 },
        ) => {
            &&& cls1 == cls2
            &&& ty1 == ty2
            &&& same_exprs(args1, args2)
            &&& raw1 == raw2
        },
        (
            ExprV::NewArray {
                elem: elem1,
                dims: dims1,
                trailing_dims: trailing_dims1,
                init: init1,
            },
            ExprV::NewArray {
                elem: elem2,
                dims: dims2,
                trailing_dims: trailing_dims2,
                init: init2,
            },
        ) => {
            &&& elem1 == elem2
            &&& same_exprs(dims1, dims2)
            &&& trailing_dims1 == trailing_dims2
            &&& same_opt_exprs(init1, init2)
        },
        (
            ExprV::NewMultiArray { ty: ty1, dims: dims1 },
            ExprV::NewMultiArray { ty: ty2, dims: dims2 },
        ) => {
            &&& ty1 == ty2
            &&& same_exprs(dims1, dims2)
        },
        (
            ExprV::Field { owner: owner1, cls: cls1, name: name1, ty: ty1, is_static: is_static1 },
            ExprV::Field { owner: owner2, cls: cls2, name: name2, ty: ty2, is_static: is_static2 },
        ) => {
            &&& same_opt_box(owner1, owner2)
            &&& cls1 == cls2
            &&& name1 == name2
            &&& ty1 == ty2
            &&& is_static1 == is_static2
        },
        (
            ExprV::Method {
                owner: owner1,
                cls: cls1,
                name: name1,
                desc: desc1,
                args: args1,
                is_static: is_static1,
                is_interface: is_interface1,
                is_special: is_special1,
                is_super: is_super1,
                is_dynamic: is_dynamic1,
                type_args: type_args1,
            },
            ExprV::Method {
                owner: owner2,
                cls: cls2,
                name: name2,
                desc: desc2,
                args: args2,
                is_static: is_static2,
                is_interface: is_interface2,
                is_special: is_special2,
                is_super: is_super2,
                is_dynamic: is_dynamic2,
                type_args: type_args2,
            },
        ) => {
            &&& same_opt_box(owner1, owner2)
            &&& cls1 == cls2
            &&& name1 == name2
            &&& desc1 == desc2
            &&& same_exprs(args1, args2)
            &&& is_static1 == is_static2
            &&& is_interface1 == is_interface2
            &&& is_special1 == is_special2
            &&& is_super1 == is_super2
            &&& is_dynamic1 == is_dynamic2
            &&& type_args1 == type_args2
        },
        (
            ExprV::ArrayIndex { array: array1, index: index1 },
            ExprV::ArrayIndex { array: array2, index: index2 },
        ) => {
            &&& same_expr(*array1, *array2)
            &&& same_expr(*index1, *index2)
        },
        (ExprV::Cast { ty: ty1, e: e1 }, ExprV::Cast { ty: ty2, e: e2 }) => {
            &&& ty1 == ty2
            &&& same_expr(*e1, *e2)
        },
        (ExprV::InstanceOf { e: e1, ty: ty1 }, ExprV::InstanceOf { e: e2, ty: ty2 }) => {
            &&& same_expr(*e1, *e2)
            &&& ty1 == ty2
        },
        (ExprV::Un { op: op1, e: e1 }, ExprV::Un { op: op2, e: e2 }) => {
            &&& op1 == op2
            &&& same_expr(*e1, *e2)
        },
        (
            ExprV::Bin { op: op1, l: l1, r: r1, ty: ty1 },
            ExprV::Bin { op: op2, l: l2, r: r2, ty: ty2 },
        ) => {
            &&& op1 == op2
            &&& same_expr(*l1, *l2)
            &&& same_expr(*r1, *r2)
            &&& ty1 == ty2
        },
        (ExprV::Cond { c: c1, t: t1, f: f1 }, ExprV::Cond { c: c2, t: t2, f: f2 }) => {
            &&& same_expr(*c1, *c2)
            &&& same_expr(*t1, *t2)
            &&& same_expr(*f1, *f2)
        },
        (
            ExprV::Assign { target: target1, op: op1, value: value1 },
            ExprV::Assign { target: target2, op: op2, value: value2 },
        ) => {
            &&& same_expr(*target1, *target2)
            &&& op1 == op2
            &&& same_expr(*value1, *value2)
        },
        (
            ExprV::PreIncDec { e: e1, delta: delta1, wide: wide1 },
            ExprV::PreIncDec { e: e2, delta: delta2, wide: wide2 },
        ) => {
            &&& same_expr(*e1, *e2)
            &&& delta1 == delta2
            &&& wide1 == wide2
        },
        (
            ExprV::PostIncDec { e: e1, delta: delta1, wide: wide1 },
            ExprV::PostIncDec { e: e2, delta: delta2, wide: wide2 },
        ) => {
            &&& same_expr(*e1, *e2)
            &&& delta1 == delta2
            &&& wide1 == wide2
        },
        (ExprV::Lambda(l1), ExprV::Lambda(l2)) => {
            &&& same_lambda(*l1, *l2)
        },
        (ExprV::StringConcat(parts1), ExprV::StringConcat(parts2)) => {
            &&& same_parts(parts1, parts2)
        },
        (ExprV::Raw(text1), ExprV::Raw(text2)) => {
            &&& text1 == text2
        },
        (ExprV::RawT(text1, ty1), ExprV::RawT(text2, ty2)) => {
            &&& text1 == text2
            &&& ty1 == ty2
        },
        (
            ExprV::Invokedynamic {
                name: name1,
                desc: desc1,
                args: args1,
                bsm_text: bsm_text1,
                bsm_static_args: bsm_static_args1,
            },
            ExprV::Invokedynamic {
                name: name2,
                desc: desc2,
                args: args2,
                bsm_text: bsm_text2,
                bsm_static_args: bsm_static_args2,
            },
        ) => {
            &&& name1 == name2
            &&& desc1 == desc2
            &&& same_exprs(args1, args2)
            &&& bsm_text1 == bsm_text2
            &&& bsm_static_args1 == bsm_static_args2
        },
        (
            ExprV::AnonNew { cls: cls1, base: base1, args: args1, body: body1 },
            ExprV::AnonNew { cls: cls2, base: base2, args: args2, body: body2 },
        ) => {
            &&& cls1 == cls2
            &&& base1 == base2
            &&& same_exprs(args1, args2)
            &&& body1 == body2
        },
        _ => false,
    }
}

/// Equality of two `LambdaExpr` models, floating constants compared by value.
pub open spec fn same_lambda(a: LambdaExprV, b: LambdaExprV) -> bool
    decreases a,
{
    &&& a.kind == b.kind
    &&& a.sam_name == b.sam_name
    &&& a.sam_desc == b.sam_desc
    &&& a.inst_sam_desc == b.inst_sam_desc
    &&& a.impl_owner == b.impl_owner
    &&& a.impl_name == b.impl_name
    &&& a.impl_desc == b.impl_desc
    &&& a.impl_is_static == b.impl_is_static
    &&& same_exprs(a.captures, b.captures)
    &&& a.param_names == b.param_names
    &&& a.ref_receiver == b.ref_receiver
    &&& a.capture_snaps == b.capture_snaps
}

/// Equality of two `Expr` values, floating constants compared by value.
pub fn expr_eq(a: &Expr, b: &Expr) -> (r: bool)
    ensures
        r == same_expr(a@, b@),
    decreases a,
{
    match (a, b) {
        (Expr::Const(c1), Expr::Const(c2)) => c1.same(c2),
        (Expr::Local { var: var1, ty: ty1 }, Expr::Local { var: var2, ty: ty2 }) => *var1 == *var2
            && ty1.same(ty2),
        (Expr::This, Expr::This) => true,
        (
            Expr::New { cls: cls1, ty: ty1, args: args1, raw: raw1 },
            Expr::New { cls: cls2, ty: ty2, args: args2, raw: raw2 },
        ) => *cls1
            == *cls2
            && ty1.same(ty2) && exprs_eq(args1, args2) && *raw1 == *raw2,
        (
            Expr::NewArray { elem: elem1, dims: dims1, trailing_dims: trailing_dims1, init: init1 },
            Expr::NewArray { elem: elem2, dims: dims2, trailing_dims: trailing_dims2, init: init2 },
        ) => elem1.same(
            elem2
        )
            && exprs_eq(dims1, dims2) && *trailing_dims1 == *trailing_dims2
            && opt_exprs_eq(init1, init2),
        (
            Expr::NewMultiArray { ty: ty1, dims: dims1 },
            Expr::NewMultiArray { ty: ty2, dims: dims2 },
        ) => ty1.same(
            ty2
        )
            && exprs_eq(dims1, dims2),
        (
            Expr::Field { owner: owner1, cls: cls1, name: name1, ty: ty1, is_static: is_static1 },
            Expr::Field { owner: owner2, cls: cls2, name: name2, ty: ty2, is_static: is_static2 },
        ) => opt_box_eq(
            owner1,
            owner2,
        )
            && *cls1 == *cls2 && *name1 == *name2 && ty1.same(ty2) && *is_static1 == *is_static2,
        (
            Expr::Method {
                owner: owner1,
                cls: cls1,
                name: name1,
                desc: desc1,
                args: args1,
                is_static: is_static1,
                is_interface: is_interface1,
                is_special: is_special1,
                is_super: is_super1,
                is_dynamic: is_dynamic1,
                type_args: type_args1,
            },
            Expr::Method {
                owner: owner2,
                cls: cls2,
                name: name2,
                desc: desc2,
                args: args2,
                is_static: is_static2,
                is_interface: is_interface2,
                is_special: is_special2,
                is_super: is_super2,
                is_dynamic: is_dynamic2,
                type_args: type_args2,
            },
        ) => opt_box_eq(
            owner1,
            owner2,
        )
            && *cls1 == *cls2 && *name1 == *name2 && desc1.same(desc2) && exprs_eq(args1, args2)
            && *is_static1 == *is_static2 && *is_interface1 == *is_interface2
            && *is_special1 == *is_special2 && *is_super1 == *is_super2
            && *is_dynamic1 == *is_dynamic2 && strings_eq(type_args1, type_args2),
        (
            Expr::ArrayIndex { array: array1, index: index1 },
            Expr::ArrayIndex { array: array2, index: index2 },
        ) => expr_eq(
            array1,
            array2,
        )
            && expr_eq(index1, index2),
        (Expr::Cast { ty: ty1, e: e1 }, Expr::Cast { ty: ty2, e: e2 }) => ty1.same(ty2)
            && expr_eq(e1, e2),
        (Expr::InstanceOf { e: e1, ty: ty1 }, Expr::InstanceOf { e: e2, ty: ty2 }) => expr_eq(
            e1,
            e2,
        )
            && ty1.same(ty2),
        (Expr::Un { op: op1, e: e1 }, Expr::Un { op: op2, e: e2 }) => *op1 == *op2
            && expr_eq(e1, e2),
        (
            Expr::Bin { op: op1, l: l1, r: r1, ty: ty1 },
            Expr::Bin { op: op2, l: l2, r: r2, ty: ty2 },
        ) => *op1
            == *op2
            && expr_eq(l1, l2) && expr_eq(r1, r2) && opt_type_eq(ty1, ty2),
        (Expr::Cond { c: c1, t: t1, f: f1 }, Expr::Cond { c: c2, t: t2, f: f2 }) => expr_eq(c1, c2)
            && expr_eq(t1, t2) && expr_eq(f1, f2),
        (
            Expr::Assign { target: target1, op: op1, value: value1 },
            Expr::Assign { target: target2, op: op2, value: value2 },
        ) => expr_eq(
            target1,
            target2,
        )
            && *op1 == *op2 && expr_eq(value1, value2),
        (
            Expr::PreIncDec { e: e1, delta: delta1, wide: wide1 },
            Expr::PreIncDec { e: e2, delta: delta2, wide: wide2 },
        ) => expr_eq(
            e1,
            e2,
        )
            && *delta1 == *delta2 && *wide1 == *wide2,
        (
            Expr::PostIncDec { e: e1, delta: delta1, wide: wide1 },
            Expr::PostIncDec { e: e2, delta: delta2, wide: wide2 },
        ) => expr_eq(
            e1,
            e2,
        )
            && *delta1 == *delta2 && *wide1 == *wide2,
        (Expr::Lambda(l1), Expr::Lambda(l2)) => lambda_eq(l1, l2),
        (Expr::StringConcat(parts1), Expr::StringConcat(parts2)) => parts_eq(parts1, parts2),
        (Expr::Raw(text1), Expr::Raw(text2)) => *text1 == *text2,
        (Expr::RawT(text1, ty1), Expr::RawT(text2, ty2)) => *text1 == *text2 && ty1.same(ty2),
        (
            Expr::Invokedynamic {
                name: name1,
                desc: desc1,
                args: args1,
                bsm_text: bsm_text1,
                bsm_static_args: bsm_static_args1,
            },
            Expr::Invokedynamic {
                name: name2,
                desc: desc2,
                args: args2,
                bsm_text: bsm_text2,
                bsm_static_args: bsm_static_args2,
            },
        ) => *name1
            == *name2
            && desc1.same(desc2) && exprs_eq(args1, args2) && *bsm_text1 == *bsm_text2
            && bsm_args_eq(bsm_static_args1, bsm_static_args2),
        (
            Expr::AnonNew { cls: cls1, base: base1, args: args1, body: body1 },
            Expr::AnonNew { cls: cls2, base: base2, args: args2, body: body2 },
        ) => *cls1
            == *cls2
            && base1.same(base2) && exprs_eq(args1, args2) && *body1 == *body2,
        _ => false,
    }
}

/// Equality of two `LambdaExpr` values, floating constants compared by value.
pub fn lambda_eq(a: &LambdaExpr, b: &LambdaExpr) -> (r: bool)
    ensures
        r == same_lambda(a@, b@),
    decreases a,
{
    a.kind == b.kind && a.sam_name == b.sam_name && a.sam_desc.same(&b.sam_desc)
        && opt_desc_eq(&a.inst_sam_desc, &b.inst_sam_desc) && a.impl_owner == b.impl_owner
        && a.impl_name == b.impl_name && a.impl_desc.same(&b.impl_desc)
        && a.impl_is_static == b.impl_is_static && exprs_eq(&a.captures, &b.captures)
        && strings_eq(&a.param_names, &b.param_names)
        && opt_string_eq(&a.ref_receiver, &b.ref_receiver)
        && snaps_eq(&a.capture_snaps, &b.capture_snaps)
}

/// Equality of concatenation pieces.
pub open spec fn same_part(a: ConcatPartV, b: ConcatPartV) -> bool
    decreases a,
{
    match (a, b) {
        (ConcatPartV::Str(x), ConcatPartV::Str(y)) => same_expr(x, y),
        (ConcatPartV::Const(x), ConcatPartV::Const(y)) => x == y,
        _ => false,
    }
}

/// Copy of a concatenation piece.
pub fn clone_part(p: &ConcatPart) -> (r: ConcatPart)
    ensures
        r@ == p@,
    decreases p,
{
    match p {
        ConcatPart::Str(e) => ConcatPart::Str(clone_expr(e)),
        ConcatPart::Const(s) => ConcatPart::Const(s.clone()),
    }
}

/// Equality of concatenation pieces.
pub fn part_eq(a: &ConcatPart, b: &ConcatPart) -> (r: bool)
    ensures
        r == same_part(a@, b@),
    decreases a,
{
    match (a, b) {
        (ConcatPart::Str(x), ConcatPart::Str(y)) => expr_eq(x, y),
        (ConcatPart::Const(x), ConcatPart::Const(y)) => *x == *y,
        _ => false,
    }
}

/// Model of a list of expressions.
pub open spec fn exprs(v: Seq<Expr>) -> Seq<ExprV>
    decreases v,
{
    Seq::new(v.len(), |i: int| if 0 <= i < v.len() { v[i].view() } else { arbitrary() })
}

/// Copy of a list of expressions.
pub fn clone_exprs(v: &Vec<Expr>) -> (r: Vec<Expr>)
    ensures
        exprs(r@) == exprs(v@),
    decreases v,
{
    let mut r: Vec<Expr> = Vec::new();
    let mut i: usize = 0;
    while i < v.len()
        invariant
            i <= v.len(),
            r.len() == i,
            forall|j: int| 0 <= j < i ==> (#[trigger] r@[j])@ == v@[j]@,
        decreases v.len() - i,
    {
        r.push(clone_expr(&v[i]));
        i += 1;
    }
    assert(exprs(r@) =~= exprs(v@));
    r
}

/// Pairwise equality of lists of expressions.
pub open spec fn same_exprs(a: Seq<ExprV>, b: Seq<ExprV>) -> bool
    decreases a,
{
    a.len() == b.len() && forall|i: int| 0 <= i < a.len() ==> same_expr(#[trigger] a[i], b[i])
}

/// Pairwise equality of lists of expressions.
pub fn exprs_eq(a: &Vec<Expr>, b: &Vec<Expr>) -> (r: bool)
    ensures
        r == same_exprs(exprs(a@), exprs(b@)),
    decreases a,
{
    if a.len() != b.len() {
        return false;
    }
    let mut i: usize = 0;
    while i < a.len()
        invariant
            i <= a.len(),
            a.len() == b.len(),
            forall|j: int| 0 <= j < i ==> same_expr(#[trigger] exprs(a@)[j], exprs(b@)[j]),
        decreases a.len() - i,
    {
        if !expr_eq(&a[i], &b[i]) {
            assert(!(same_expr(exprs(a@)[i as int], exprs(b@)[i as int])));
            return false;
        }
        i += 1;
    }
    true
}

/// Model of a list of concatenation pieces.
pub open spec fn concat_parts(v: Seq<ConcatPart>) -> Seq<ConcatPartV>
    decreases v,
{
    Seq::new(v.len(), |i: int| if 0 <= i < v.len() { v[i].view() } else { arbitrary() })
}

/// Copy of a list of concatenation pieces.
pub fn clone_parts(v: &Vec<ConcatPart>) -> (r: Vec<ConcatPart>)
    ensures
        concat_parts(r@) == concat_parts(v@),
    decreases v,
{
    let mut r: Vec<ConcatPart> = Vec::new();
    let mut i: usize = 0;
    while i < v.len()
        invariant
            i <= v.len(),
            r.len() == i,
            forall|j: int| 0 <= j < i ==> (#[trigger] r@[j])@ == v@[j]@,
        decreases v.len() - i,
    {
        r.push(clone_part(&v[i]));
        i += 1;
    }
    assert(concat_parts(r@) =~= concat_parts(v@));
    r
}

/// Pairwise equality of lists of concatenation pieces.
pub open spec fn same_parts(a: Seq<ConcatPartV>, b: Seq<ConcatPartV>) -> bool
    decreases a,
{
    a.len() == b.len() && forall|i: int| 0 <= i < a.len() ==> same_part(#[trigger] a[i], b[i])
}

/// Pairwise equality of lists of concatenation pieces.
pub fn parts_eq(a: &Vec<ConcatPart>, b: &Vec<ConcatPart>) -> (r: bool)
    ensures
        r == same_parts(concat_parts(a@), concat_parts(b@)),
    decreases a,
{
    if a.len() != b.len() {
        return false;
    }
    let mut i: usize = 0;
    while i < a.len()
        invariant
            i <= a.len(),
            a.len() == b.len(),
            forall|j: int|
                0 <= j < i ==> same_part(#[trigger] concat_parts(a@)[j], concat_parts(b@)[j]),
        decreases a.len() - i,
    {
        if !part_eq(&a[i], &b[i]) {
            assert(!(same_part(concat_parts(a@)[i as int], concat_parts(b@)[i as int])));
            return false;
        }
        i += 1;
    }
    true
}

/// Model of an optional boxed expression.
pub open spec fn opt_box(o: Option<Box<Expr>>) -> Option<Box<ExprV>>
    decreases o,
{
    match o {
        Some(x) => Some(Box::new(x.view())),
        None => None,
    }
}

/// Copy of an optional boxed expression.
pub fn clone_opt_box(o: &Option<Box<Expr>>) -> (r: Option<Box<Expr>>)
    ensures
        opt_box(r) == opt_box(*o),
    decreases o,
{
    match o {
        Some(x) => Some(Box::new(clone_expr(x))),
        None => None,
    }
}

/// Equality of optional boxed expressions.
pub open spec fn same_opt_box(a: Option<Box<ExprV>>, b: Option<Box<ExprV>>) -> bool
    decreases a,
{
    match (a, b) {
        (Some(x), Some(y)) => same_expr(*x, *y),
        (None, None) => true,
        _ => false,
    }
}

/// Equality of optional boxed expressions.
pub fn opt_box_eq(a: &Option<Box<Expr>>, b: &Option<Box<Expr>>) -> (r: bool)
    ensures
        r == same_opt_box(opt_box(*a), opt_box(*b)),
    decreases a,
{
    match (a, b) {
        (Some(x), Some(y)) => expr_eq(x, y),
        (None, None) => true,
        _ => false,
    }
}

/// Model of an optional expression list.
pub open spec fn opt_exprs(o: Option<Vec<Expr>>) -> Option<Seq<ExprV>>
    decreases o,
{
    match o {
        Some(x) => Some(exprs(x@)),
        None => None,
    }
}

/// Copy of an optional expression list.
pub fn clone_opt_exprs(o: &Option<Vec<Expr>>) -> (r: Option<Vec<Expr>>)
    ensures
        opt_exprs(r) == opt_exprs(*o),
    decreases o,
{
    match o {
        Some(x) => Some(clone_exprs(x)),
        None => None,
    }
}

/// Equality of optional expression lists.
pub open spec fn same_opt_exprs(a: Option<Seq<ExprV>>, b: Option<Seq<ExprV>>) -> bool
    decreases a,
{
    match (a, b) {
        (Some(x), Some(y)) => same_exprs(x, y),
        (None, None) => true,
        _ => false,
    }
}

/// Equality of optional expression lists.
pub fn opt_exprs_eq(a: &Option<Vec<Expr>>, b: &Option<Vec<Expr>>) -> (r: bool)
    ensures
        r == same_opt_exprs(opt_exprs(*a), opt_exprs(*b)),
    decreases a,
{
    match (a, b) {
        (Some(x), Some(y)) => exprs_eq(x, y),
        (None, None) => true,
        _ => false,
    }
}

/// Model of an optional expression.
pub open spec fn opt_expr(o: Option<Expr>) -> Option<ExprV>
{
    match o {
        Some(x) => Some(x@),
        None => None,
    }
}

/// Copy of an optional expression.
pub fn clone_opt_expr(o: &Option<Expr>) -> (r: Option<Expr>)
    ensures
        opt_expr(r) == opt_expr(*o),
{
    match o {
        Some(x) => Some(x.clone()),
        None => None,
    }
}

/// Equality of optional expressions.
pub open spec fn same_opt_expr(a: Option<ExprV>, b: Option<ExprV>) -> bool
{
    match (a, b) {
        (Some(x), Some(y)) => same_expr(x, y),
        (None, None) => true,
        _ => false,
    }
}

/// Equality of optional expressions.
pub fn opt_expr_eq(a: &Option<Expr>, b: &Option<Expr>) -> (r: bool)
    ensures
        r == same_opt_expr(opt_expr(*a), opt_expr(*b)),
{
    match (a, b) {
        (Some(x), Some(y)) => expr_eq(x, y),
        (None, None) => true,
        _ => false,
    }
}

// ---------------------------------------------------------------------
// Static type.

/// `t` with `n` array levels around it.
pub open spec fn array_of(t: JTypeV, n: nat) -> JTypeV
    decreases n,
{
    if n == 0 {
        t
    } else {
        JTypeV::Array(Box::new(array_of(t, (n - 1) as nat)))
    }
}

/// The class type `java/lang/String`.
pub open spec fn string_type() -> JTypeV {
    JTypeV::Object("java/lang/String"@)
}

/// Static type of a constant.
pub open spec fn const_type(c: ConstValV) -> JTypeV {
    match c {
        ConstValV::Int(_) => JTypeV::Int,
        ConstValV::Long(_) => JTypeV::Long,
        ConstValV::Float(_) => JTypeV::Float,
        ConstValV::Double(_) => JTypeV::Double,
        ConstValV::Str(_) => string_type(),
        ConstValV::Null => object_type(),
        ConstValV::ClassLit(_) => JTypeV::Object("java/lang/Class"@),
    }
}

/// Operators whose result is a truth value.
pub open spec fn is_boolean_op(op: BinOp) -> bool {
    op is Eq || op is Ne || op is Lt || op is Ge || op is Gt || op is Le || op is RefEq
        || op is RefNe
        || op is LogAnd || op is LogOr
}

/// Best static type of an expression.
pub open spec fn type_of(e: ExprV) -> TypeRefV
    decreases e,
{
    match e {
        ExprV::Const(c) => TypeRefV::J(const_type(c)),
        ExprV::Local { ty, .. } => ty,
        ExprV::This => TypeRefV::J(object_type()),
        ExprV::New { ty, .. } => ty,
        ExprV::NewArray { elem, trailing_dims, .. } => TypeRefV::J(
            array_of(erase(elem), trailing_dims as nat + 1),
        ),
        ExprV::NewMultiArray { ty, .. } => ty,
        ExprV::Field { ty, .. } => ty,
        ExprV::Method { desc, .. } => TypeRefV::J(desc.ret),
        ExprV::ArrayIndex { array, .. } => match erase(type_of(*array)) {
            JTypeV::Array(inner) => TypeRefV::J(*inner),
            t => TypeRefV::J(t),
        },
        ExprV::Cast { ty, .. } => ty,
        ExprV::InstanceOf { .. } => TypeRefV::J(JTypeV::Boolean),
        ExprV::Un { op, e } => if op is Not {
            TypeRefV::J(JTypeV::Boolean)
        } else {
            type_of(*e)
        },
        ExprV::Bin { op, l, ty, .. } => if is_boolean_op(op) {
            TypeRefV::J(JTypeV::Boolean)
        } else {
            match ty {
                Some(t) => t,
                None => type_of(*l),
            }
        },
        ExprV::Cond { t, f, .. } => match (type_of(*t), type_of(*f)) {
            (TypeRefV::J(JTypeV::Object(a)), TypeRefV::J(JTypeV::Object(b))) => if a != b {
                TypeRefV::J(object_type())
            } else {
                type_of(*t)
            },
            _ => type_of(*t),
        },
        ExprV::Assign { value, .. } => type_of(*value),
        ExprV::PreIncDec { e, .. } => type_of(*e),
        ExprV::PostIncDec { e, .. } => type_of(*e),
        ExprV::Lambda(_) => TypeRefV::J(object_type()),
        ExprV::Raw(_) => TypeRefV::J(object_type()),
        ExprV::RawT(_, ty) => ty,
        ExprV::AnonNew { cls, .. } => TypeRefV::J(JTypeV::Object(cls)),
        ExprV::StringConcat(_) => TypeRefV::J(string_type()),
        ExprV::Invokedynamic { desc, .. } => TypeRefV::J(desc.ret),
    }
}

/// `t` with `n` array levels around it.
pub fn wrap_array(t: JType, n: usize) -> (r: JType)
    ensures
        r@ == array_of(t@, n as nat),
{
    let mut r = t;
    let mut i: usize = 0;
    while i < n
        invariant
            i <= n,
            r@ == array_of(t@, i as nat),
        decreases n - i,
    {
        r = JType::Array(Box::new(r));
        i += 1;
    }
    r
}

impl ConstVal {
    /// Static type of the constant.
    pub fn java_type(&self) -> (r: JType)
        ensures
            r@ == const_type(self@),
    {
        match self {
            ConstVal::Int(_) => JType::Int,
            ConstVal::Long(_) => JType::Long,
            ConstVal::Float(_) => JType::Float,
            ConstVal::Double(_) => JType::Double,
            ConstVal::Str(_) => object("java/lang/String"),
            ConstVal::Null => object("java/lang/Object"),
            ConstVal::ClassLit(_) => object("java/lang/Class"),
        }
    }
}

impl Expr {
    /// Best static type of the expression.
    pub fn type_ref(&self) -> (r: TypeRef)
        ensures
            r@ == type_of(self@),
        decreases self,
    {
        match self {
            Expr::Const(c) => TypeRef::J(c.java_type()),
            Expr::Local { ty, .. } => ty.clone(),
            Expr::This => TypeRef::J(object("java/lang/Object")),
            Expr::New { ty, .. } => ty.clone(),
            Expr::NewArray { elem, trailing_dims, .. } => TypeRef::J(
                wrap_array(elem.erased(), *trailing_dims as usize + 1),
            ),
            Expr::NewMultiArray { ty, .. } => ty.clone(),
            Expr::Field { ty, .. } => ty.clone(),
            Expr::Method { desc, .. } => TypeRef::J(desc.ret.clone()),
            Expr::ArrayIndex { array, .. } => match array.type_ref().erased() {
                JType::Array(inner) => TypeRef::J(*inner),
                t => TypeRef::J(t),
            },
            Expr::Cast { ty, .. } => ty.clone(),
            Expr::InstanceOf { .. } => TypeRef::J(JType::Boolean),
            Expr::Un { op, e } => if matches!(op, UnOp::Not) {
                TypeRef::J(JType::Boolean)
            } else {
                e.type_ref()
            },
            Expr::Bin { op, l, ty, .. } => if op.is_boolean() {
                TypeRef::J(JType::Boolean)
            } else {
                match ty {
                    Some(t) => t.clone(),
                    None => l.type_ref(),
                }
            },
            Expr::Cond { t, f, .. } => {
                let tt = t.type_ref();
                let ft = f.type_ref();
                let diverge = match (&tt, &ft) {
                    (TypeRef::J(JType::Object(a)), TypeRef::J(JType::Object(b))) => *a != *b,
                    _ => false,
                };
                if diverge {
                    TypeRef::J(object("java/lang/Object"))
                } else {
                    tt
                }
            },
            Expr::Assign { value, .. } => value.type_ref(),
            Expr::PreIncDec { e, .. } => e.type_ref(),
            Expr::PostIncDec { e, .. } => e.type_ref(),
            Expr::Lambda(_) => TypeRef::J(object("java/lang/Object")),
            Expr::Raw(_) => TypeRef::J(object("java/lang/Object")),
            Expr::RawT(_, ty) => ty.clone(),
            Expr::AnonNew { cls, .. } => TypeRef::J(JType::Object(cls.clone())),
            Expr::StringConcat(_) => TypeRef::J(object("java/lang/String")),
            Expr::Invokedynamic { desc, .. } => TypeRef::J(desc.ret.clone()),
        }
    }
}

impl BinOp {
    /// Whether the result is a truth value.
    pub fn is_boolean(self) -> (r: bool)
        ensures
            r == is_boolean_op(self),
    {
        matches!(
            self,
            BinOp::Eq | BinOp::Ne | BinOp::Lt | BinOp::Ge | BinOp::Gt | BinOp::Le | BinOp::RefEq
            | BinOp::RefNe | BinOp::LogAnd | BinOp::LogOr
        )
    }
}

// ---------------------------------------------------------------------
// Shapes.

/// The variable of a local access.
pub open spec fn as_local(e: ExprV) -> Option<u32> {
    match e {
        ExprV::Local { var, .. } => Some(var),
        _ => None,
    }
}

/// Target variable and value of a plain assignment to a local.
pub open spec fn as_local_store(e: ExprV) -> Option<(u32, ExprV)> {
    match e {
        ExprV::Assign { target, op, value } => match (as_local(*target), op) {
            (Some(v), AssignOp::Plain) => Some((v, *value)),
            _ => None,
        },
        _ => None,
    }
}

/// The variable of a local access.
pub fn local_var(e: &Expr) -> (r: Option<u32>)
    ensures
        r == as_local(e@),
{
    match e {
        Expr::Local { var, .. } => Some(*var),
        _ => None,
    }
}

/// Target variable and value of a plain assignment to a local.
pub fn local_store(e: &Expr) -> (r: Option<(u32, &Expr)>)
    ensures
        match r {
            Some((v, x)) => as_local_store(e@) == Some((v, x@)),
            None => as_local_store(e@) is None,
        },
{
    match e {
        Expr::Assign { target, op, value } => match (local_var(target), op) {
            (Some(v), AssignOp::Plain) => Some((v, value)),
            _ => None,
        },
        _ => None,
    }
}

/// Takes the expression out, leaving `this` behind.
pub fn take_expr(e: &mut Expr) -> (r: Expr)
    ensures
        r == *old(e),
        final(e)@ == ExprV::This,
{
    let mut x = Expr::This;
    core::mem::swap(e, &mut x);
    x
}

/// Whether `e` is local `var`.
pub fn is_local(e: &Expr, var: u32) -> (r: bool)
    ensures
        r == (as_local(e@) == Some(var)),
{
    match e {
        Expr::Local { var: v, .. } => *v == var,
        _ => false,
    }
}

} // verus!
