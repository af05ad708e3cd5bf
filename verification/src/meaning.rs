//! What expressions mean.
//!
//! Every value is a number: an `int` or `long` itself, a truth value 0 or 1, `null` 0, a
//! reference its identity, a floating value its place among those of its type, in order.
//! A NaN has no such place, so it is no value here.
use crate::ctor_guards::negated;
use crate::expr::{BinOp, ConcatPartV, ConstValV, ExprV, UnOp};
use crate::labels::inverted;
use crate::types::{erase, has_prefix, JTypeV, TypeRefV};
use vstd::prelude::*;

verus! {

/// What decides the values of expressions: the variables, and what is computed elsewhere.
pub ghost struct Valuation {
    /// Values of variables.
    pub local: spec_fn(u32) -> int,
    /// Constants other than whole numbers and `null`.
    pub constant: spec_fn(ConstValV) -> int,
    /// Arithmetic on floating values.
    pub floating: spec_fn(BinOp, Option<JTypeV>, int, int) -> int,
    /// Negation.
    pub negative: spec_fn(int) -> int,
    /// Values converted to another type.
    pub cast: spec_fn(JTypeV, int) -> int,
    /// Elements of arrays, by array and index.
    pub element: spec_fn(int, int) -> int,
    /// Anything else, by what it is and the values that it is made of.
    pub other: spec_fn(ExprV, Seq<int>) -> int,
}

/// A number that is true.
pub open spec fn truth(n: int) -> bool {
    n != 0
}

/// A truth value as a number.
pub open spec fn bit(b: bool) -> int {
    if b {
        1
    } else {
        0
    }
}

/// The number of a truth value.
pub open spec fn is_truth(n: int) -> bool {
    n == 0 || n == 1
}

/// `n` as an `int`: 32 bits, the highest of them the sign.
pub open spec fn wrap32(n: int) -> int {
    (n + 0x8000_0000) % 0x1_0000_0000 - 0x8000_0000
}

/// `n` as a `long`.
pub open spec fn wrap64(n: int) -> int {
    (n + 0x8000_0000_0000_0000) % 0x1_0000_0000_0000_0000 - 0x8000_0000_0000_0000
}

/// The size of a number.
pub open spec fn size(n: int) -> int {
    if n < 0 {
        -n
    } else {
        n
    }
}

/// Division that drops the fraction.
pub open spec fn quotient(a: int, b: int) -> int {
    if (a < 0) == (b < 0) {
        size(a) / size(b)
    } else {
        -(size(a) / size(b))
    }
}

/// What division leaves; it has the sign of `a`.
pub open spec fn remainder(a: int, b: int) -> int {
    if a < 0 {
        -(size(a) % size(b))
    } else {
        size(a) % size(b)
    }
}

/// How far a shift by `b` goes where values have `bits` bits: the low bits of `b` say.
pub open spec fn distance(b: int, bits: u32) -> u32 {
    ((b as i32) as u32) % bits
}

/// Bit operations.
pub open spec fn bitwise(op: BinOp, a: int, b: int) -> int {
    let x = a as i64;
    let y = b as i64;
    match op {
        BinOp::And => (x & y) as int,
        BinOp::Or => (x | y) as int,
        _ => (x ^ y) as int,
    }
}

/// `a op b` on `int`s.
pub open spec fn int_arithmetic(op: BinOp, a: int, b: int) -> int {
    match op {
        BinOp::Add => wrap32(a + b),
        BinOp::Sub => wrap32(a - b),
        BinOp::Mul => wrap32(a * b),
        BinOp::Div => wrap32(quotient(a, b)),
        BinOp::Rem => wrap32(remainder(a, b)),
        BinOp::Shl => ((a as i32) << distance(b, 32)) as int,
        BinOp::Shr => ((a as i32) >> distance(b, 32)) as int,
        _ => ((((a as i32) as u32) >> distance(b, 32)) as i32) as int,
    }
}

/// `a op b` on `long`s.
pub open spec fn long_arithmetic(op: BinOp, a: int, b: int) -> int {
    match op {
        BinOp::Add => wrap64(a + b),
        BinOp::Sub => wrap64(a - b),
        BinOp::Mul => wrap64(a * b),
        BinOp::Div => wrap64(quotient(a, b)),
        BinOp::Rem => wrap64(remainder(a, b)),
        BinOp::Shl => ((a as i64) << distance(b, 64)) as int,
        BinOp::Shr => ((a as i64) >> distance(b, 64)) as int,
        _ => ((((a as i64) as u64) >> distance(b, 64)) as i64) as int,
    }
}

/// `a op b`, where `op` is no comparison, on values of type `t`.
pub open spec fn arithmetic(w: Valuation, op: BinOp, t: Option<JTypeV>, a: int, b: int) -> int {
    if op is And || op is Or || op is Xor {
        bitwise(op, a, b)
    } else if t == Some(JTypeV::Int) {
        int_arithmetic(op, a, b)
    } else if t == Some(JTypeV::Long) {
        long_arithmetic(op, a, b)
    } else {
        (w.floating)(op, t, a, b)
    }
}

/// The outcome of a comparison, or of a connective; none of any other operator.
pub open spec fn compared(op: BinOp, a: int, b: int) -> Option<bool> {
    match op {
        BinOp::Eq | BinOp::RefEq => Some(a == b),
        BinOp::Ne | BinOp::RefNe => Some(a != b),
        BinOp::Lt => Some(a < b),
        BinOp::Ge => Some(a >= b),
        BinOp::Gt => Some(a > b),
        BinOp::Le => Some(a <= b),
        BinOp::LogAnd => Some(truth(a) && truth(b)),
        BinOp::LogOr => Some(truth(a) || truth(b)),
        _ => None,
    }
}

/// The sign of a number.
pub open spec fn sign(n: int) -> int {
    if n < 0 {
        -1
    } else {
        bit(n > 0)
    }
}

/// The type that an operation records.
pub open spec fn recorded(t: Option<TypeRefV>) -> Option<JTypeV> {
    match t {
        Some(x) => Some(erase(x)),
        None => None,
    }
}

/// The value of a constant.
pub open spec fn constant(w: Valuation, c: ConstValV) -> int {
    match c {
        ConstValV::Int(i) => i as int,
        ConstValV::Long(i) => i as int,
        ConstValV::Null => 0,
        _ => (w.constant)(c),
    }
}

/// The value of an expression.
pub open spec fn value(w: Valuation, e: ExprV) -> int
    decreases e,
{
    match e {
        ExprV::Const(c) => constant(w, c),
        ExprV::Local { var, .. } => (w.local)(var),
        ExprV::ArrayIndex { array, index } => (w.element)(value(w, *array), value(w, *index)),
        ExprV::Cast { ty, e } => (w.cast)(erase(ty), value(w, *e)),
        ExprV::Un { op, e: x } => match op {
            UnOp::Not => bit(!truth(value(w, *x))),
            UnOp::Neg => (w.negative)(value(w, *x)),
            UnOp::BitNot => (w.other)(shell(e), seq![value(w, *x)]),
        },
        ExprV::Bin { op, l, r, ty } => match compared(op, value(w, *l), value(w, *r)) {
            Some(b) => bit(b),
            None => if op is StrCat {
                (w.other)(shell(e), seq![value(w, *l), value(w, *r)])
            } else {
                arithmetic(w, op, recorded(ty), value(w, *l), value(w, *r))
            },
        },
        ExprV::Cond { c, t, f } => if truth(value(w, *c)) {
            value(w, *t)
        } else {
            value(w, *f)
        },
        ExprV::Invokedynamic { name, args, .. } => if has_prefix(name, "\u{0}cmp"@) && args.len()
            == 2 {
            sign(value(w, args[0]) - value(w, args[1]))
        } else {
            (w.other)(e, seq![])
        },
        ExprV::New { args, .. } => (w.other)(shell(e), values(w, args)),
        ExprV::AnonNew { args, .. } => (w.other)(shell(e), values(w, args)),
        ExprV::NewArray { dims, init, .. } => (w.other)(
            shell(e),
            values(w, dims) + values_list(w, init),
        ),
        ExprV::NewMultiArray { dims, .. } => (w.other)(shell(e), values(w, dims)),
        ExprV::Field { owner, .. } => (w.other)(shell(e), values_opt(w, owner)),
        ExprV::Method { owner, args, .. } => (w.other)(
            shell(e),
            values_opt(w, owner) + values(w, args),
        ),
        ExprV::InstanceOf { e: x, .. } => (w.other)(shell(e), seq![value(w, *x)]),
        ExprV::Assign { target, value: v, .. } => (w.other)(
            shell(e),
            seq![value(w, *target), value(w, *v)],
        ),
        ExprV::PreIncDec { e: x, .. } => (w.other)(shell(e), seq![value(w, *x)]),
        ExprV::PostIncDec { e: x, .. } => (w.other)(shell(e), seq![value(w, *x)]),
        ExprV::StringConcat(parts) => (w.other)(shell(e), values_parts(w, parts)),
        _ => (w.other)(e, seq![]),
    }
}

/// The values of a list.
pub open spec fn values(w: Valuation, l: Seq<ExprV>) -> Seq<int>
    decreases l,
{
    Seq::new(l.len(), |i: int| if 0 <= i < l.len() { value(w, l[i]) } else { arbitrary() })
}

/// The value, where there is one.
pub open spec fn values_opt(w: Valuation, o: Option<Box<ExprV>>) -> Seq<int>
    decreases o,
{
    match o {
        Some(x) => seq![value(w, *x)],
        None => seq![],
    }
}

/// The values of a list, where there is one.
pub open spec fn values_list(w: Valuation, o: Option<Seq<ExprV>>) -> Seq<int>
    decreases o,
{
    match o {
        Some(l) => values(w, l),
        None => seq![],
    }
}

/// The value of a concatenation piece; constant text stands in the piece itself.
pub open spec fn value_part(w: Valuation, p: ConcatPartV) -> int
    decreases p,
{
    match p {
        ConcatPartV::Str(e) => value(w, e),
        ConcatPartV::Const(s) => (w.constant)(ConstValV::Str(s)),
    }
}

/// The values of concatenation pieces.
pub open spec fn values_parts(w: Valuation, l: Seq<ConcatPartV>) -> Seq<int>
    decreases l,
{
    Seq::new(l.len(), |i: int| if 0 <= i < l.len() { value_part(w, l[i]) } else { arbitrary() })
}

/// What an expression is, without the expressions that it is made of.
pub open spec fn shell(e: ExprV) -> ExprV {
    let hole = Box::new(ExprV::This);
    match e {
        ExprV::New { cls, ty, raw, .. } => ExprV::New { cls, ty, args: seq![], raw },
        ExprV::AnonNew { cls, base, body, .. } => ExprV::AnonNew { cls, base, args: seq![], body },
        ExprV::NewArray { elem, trailing_dims, .. } => ExprV::NewArray {
            elem,
            dims: seq![],
            trailing_dims,
            init: None,
        },
        ExprV::NewMultiArray { ty, .. } => ExprV::NewMultiArray { ty, dims: seq![] },
        ExprV::Field { cls, name, ty, is_static, .. } => ExprV::Field {
            owner: None,
            cls,
            name,
            ty,
            is_static,
        },
        ExprV::Method {
            cls,
            name,
            desc,
            is_static,
            is_interface,
            is_special,
            is_super,
            is_dynamic,
            type_args,
            ..
        } => ExprV::Method {
            owner: None,
            cls,
            name,
            desc,
            args: seq![],
            is_static,
            is_interface,
            is_special,
            is_super,
            is_dynamic,
            type_args,
        },
        ExprV::InstanceOf { ty, .. } => ExprV::InstanceOf { e: hole, ty },
        ExprV::Un { op, .. } => ExprV::Un { op, e: hole },
        ExprV::Bin { op, .. } => ExprV::Bin { op, l: hole, r: hole, ty: None },
        ExprV::Assign { op, .. } => ExprV::Assign { target: hole, op, value: hole },
        ExprV::PreIncDec { delta, wide, .. } => ExprV::PreIncDec { e: hole, delta, wide },
        ExprV::PostIncDec { delta, wide, .. } => ExprV::PostIncDec { e: hole, delta, wide },
        ExprV::StringConcat(_) => ExprV::StringConcat(seq![]),
        _ => e,
    }
}

/// The negation of a condition is true exactly when the condition is not.
pub proof fn law_negation_is_the_opposite(w: Valuation, e: ExprV)
    ensures
        truth(value(w, negated(e))) == !truth(value(w, e)),
{
}

/// So is the negation that is pushed through `&&`, `||` and comparisons.
pub proof fn law_inversion_is_the_opposite(w: Valuation, e: ExprV)
    ensures
        truth(value(w, inverted(e))) == !truth(value(w, e)),
    decreases e,
{
    if let ExprV::Bin { op, l, r, .. } = e {
        if op is LogAnd || op is LogOr {
            law_inversion_is_the_opposite(w, *l);
            law_inversion_is_the_opposite(w, *r);
        }
    }
}

} // verus!
