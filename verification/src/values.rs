//! Expressions that the block builder makes: folding, concatenation and side effects.
use crate::expr::{
    clone_expr, concat_parts, exprs, opt_box, opt_exprs, take_expr, type_of, AssignOp, BinOp,
    ConcatPart, ConcatPartV, ConstVal, ConstValV, Expr, ExprV, UnOp,
};
use crate::booleans::{int_value, is_int};
use crate::floats::{
    double_bits, magnitude, negate_double, negate_single, negated_double, negated_single,
    single_bits, to_double, to_single, widen, widened,
};
use crate::signatures::{field_desc, parse_field_descriptor};
use crate::stmt::{Stmt, StmtV};
use crate::types::{erase, object_type, str_eq, strs, JType, JTypeV, TypeRef, TypeRefV};
use vstd::prelude::*;

verus! {

/// The constant `i`.
pub fn int_const(i: i32) -> (r: Expr)
    ensures
        r@ == int_value(i),
{
    Expr::Const(ConstVal::Int(i))
}

/// `target = value` as a statement.
pub open spec fn assignment(target: ExprV, value: ExprV) -> StmtV {
    StmtV::ExprStmt(
        ExprV::Assign {
            target: Box::new(target),
            op: AssignOp::Plain,
            value: Box::new(value),
        },
    )
}

/// `target = value` as a statement.
pub fn mk_assign(target: Expr, val: Expr) -> (r: Stmt)
    ensures
        r@ == assignment(target@, val@),
{
    proof {
        reveal_with_fuel(Expr::view, 2);
    }
    Stmt::ExprStmt(
        Expr::Assign { target: Box::new(target), op: AssignOp::Plain, value: Box::new(val) },
    )
}

/// The type that a class constant names: an array descriptor or a class.
pub open spec fn class_type(name: Seq<char>) -> JTypeV {
    if name.len() > 0 && name[0] == '[' {
        match field_desc(name) {
            Some(t) => t,
            None => JTypeV::Object(name),
        }
    } else {
        JTypeV::Object(name)
    }
}

/// Whether a text starts with `[`.
pub fn starts_array(name: &str) -> (r: bool)
    ensures
        r == (name@.len() > 0 && name@[0] == '['),
{
    name.unicode_len() > 0 && name.get_char(0) == '['
}

/// The type that a class constant names.
pub fn class_name_to_type(name: &str) -> (r: JType)
    ensures
        r@ == class_type(name@),
{
    if starts_array(name) {
        match parse_field_descriptor(name) {
            Some(t) => t,
            None => JType::Object(name.to_owned()),
        }
    } else {
        JType::Object(name.to_owned())
    }
}

// ---------------------------------------------------------------------
// Side effects.

/// `x / r` or `x % r` on whole numbers, where `r` may be zero.
pub open spec fn may_divide_by_zero(op: BinOp, l: ExprV, r: ExprV) -> bool {
    &&& op is Div || op is Rem
    &&& !is_floating(erase(type_of(l))) && !is_floating(erase(type_of(r)))
    &&& match r {
        ExprV::Const(ConstValV::Int(i)) => i == 0,
        ExprV::Const(ConstValV::Long(i)) => i == 0,
        _ => true,
    }
}

/// A floating-point type.
pub open spec fn is_floating(t: JTypeV) -> bool {
    t is Float || t is Double
}

/// A length that may be negative.
pub open spec fn may_be_negative(e: ExprV) -> bool {
    match e {
        ExprV::Const(ConstValV::Int(i)) => i < 0,
        _ => true,
    }
}

/// A cast to a class other than `Object`, or to an array, of anything but `null`.
pub open spec fn may_fail_to_cast(t: JTypeV, e: ExprV) -> bool {
    &&& t is Object || t is Array
    &&& t != object_type()
    &&& e != ExprV::Const(ConstValV::Null)
}

/// The text of `e` comes from a method of its class.
pub open spec fn asks_for_text(e: ExprV) -> bool {
    erase(type_of(e)) matches JTypeV::Object(n) && n != "java/lang/String"@
}

/// Dropping `e` would change what a program does: it calls, creates an object or
/// assigns, it may load a class, or it may fail.
pub open spec fn effectful(e: ExprV) -> bool
    decreases e,
{
    match e {
        ExprV::New { .. } => true,
        ExprV::NewArray { dims, init, .. } => effectful_exprs(dims) || effectful_oexprs(init)
            || (init is None && any_negative(dims)),
        ExprV::NewMultiArray { dims, .. } => effectful_exprs(dims) || any_negative(dims),
        ExprV::Field { owner, is_static, .. } => match owner {
            Some(x) => !(*x is This),
            None => is_static,
        },
        ExprV::Method { .. } => true,
        ExprV::ArrayIndex { .. } => true,
        ExprV::Cast { ty, e } => effectful(*e) || may_fail_to_cast(erase(ty), *e),
        ExprV::InstanceOf { e, .. } => effectful(*e),
        ExprV::Un { e, .. } => effectful(*e),
        ExprV::Bin { op, l, r, .. } => effectful(*l) || effectful(*r)
            || may_divide_by_zero(op, *l, *r)
            || (op is StrCat && (asks_for_text(*l) || asks_for_text(*r))),
        ExprV::Cond { c, t, f } => effectful(*c) || effectful(*t) || effectful(*f),
        ExprV::Assign { .. } => true,
        ExprV::PreIncDec { .. } => true,
        ExprV::PostIncDec { .. } => true,
        ExprV::Lambda(_) => true,
        ExprV::StringConcat(parts) => effectful_parts(parts),
        ExprV::Invokedynamic { .. } => true,
        ExprV::AnonNew { .. } => true,
        _ => false,
    }
}

/// Some length may be negative.
pub open spec fn any_negative(l: Seq<ExprV>) -> bool {
    exists|i: int| 0 <= i < l.len() && may_be_negative(#[trigger] l[i])
}

/// [`effectful`] where there is a value.
pub open spec fn effectful_oexprs(o: Option<Seq<ExprV>>) -> bool
    decreases o,
{
    match o {
        Some(x) => effectful_exprs(x),
        None => false,
    }
}

/// [`effectful`] over a list.
pub open spec fn effectful_exprs(l: Seq<ExprV>) -> bool
    decreases l,
{
    exists|i: int| 0 <= i < l.len() && effectful(#[trigger] l[i])
}

/// [`effectful`] inside a concatenation piece.
pub open spec fn effectful_part(p: ConcatPartV) -> bool
    decreases p,
{
    match p {
        ConcatPartV::Str(e) => effectful(e) || asks_for_text(e),
        ConcatPartV::Const(_) => false,
    }
}

/// [`effectful`] over a list.
pub open spec fn effectful_parts(l: Seq<ConcatPartV>) -> bool
    decreases l,
{
    exists|i: int| 0 <= i < l.len() && effectful_part(#[trigger] l[i])
}

/// Whether dropping `e` would change what a program does.
pub fn has_side_effects(e: &Expr) -> (r: bool)
    ensures
        r == effectful(e@),
    decreases e,
{
    proof {
        reveal_with_fuel(Expr::view, 2);
    }
    match e {
        Expr::New { .. } => true,
        Expr::NewArray { dims, init, .. } => {
            let bare = init.is_none();
            assert(bare == (opt_exprs(*init) is None));
            has_side_effects_exprs(dims) || has_side_effects_oexprs(init) || (bare && has_negative(
                dims,
            ))
        },
        Expr::NewMultiArray { dims, .. } => has_side_effects_exprs(dims) || has_negative(dims),
        Expr::Field { owner, is_static, .. } => match owner {
            Some(x) => {
                assert(opt_box(*owner) == Some(Box::new(x@)));
                !is_this(x)
            },
            None => *is_static,
        },
        Expr::Method { .. } => true,
        Expr::ArrayIndex { .. } => true,
        Expr::Cast { ty, e } => has_side_effects(e) || cast_fails(&ty.erased(), e),
        Expr::InstanceOf { e, .. } => has_side_effects(e),
        Expr::Un { e, .. } => has_side_effects(e),
        Expr::Bin { op, l, r, .. } => has_side_effects(l) || has_side_effects(r) || divides_by_zero(
            *op,
            l,
            r,
        ) || (matches!(op, BinOp::StrCat) && (needs_text(l) || needs_text(r))),
        Expr::Cond { c, t, f } => has_side_effects(c) || has_side_effects(t) || has_side_effects(f),
        Expr::Assign { .. } => true,
        Expr::PreIncDec { .. } => true,
        Expr::PostIncDec { .. } => true,
        Expr::Lambda(_) => true,
        Expr::StringConcat(parts) => has_side_effects_parts(parts),
        Expr::Invokedynamic { .. } => true,
        Expr::AnonNew { .. } => true,
        _ => false,
    }
}

/// Whether `e` is `this`.
fn is_this(e: &Expr) -> (r: bool)
    ensures
        r == (e@ is This),
{
    matches!(e, Expr::This)
}

/// Whether a division on whole numbers may divide by zero.
fn divides_by_zero(op: BinOp, l: &Expr, r: &Expr) -> (b: bool)
    ensures
        b == may_divide_by_zero(op, l@, r@),
{
    if !matches!(op, BinOp::Div | BinOp::Rem) || matches!(
        l.type_ref().erased(),
        JType::Float | JType::Double
    ) || matches!(r.type_ref().erased(), JType::Float | JType::Double) {
        return false;
    }
    match r {
        Expr::Const(ConstVal::Int(i)) => *i == 0,
        Expr::Const(ConstVal::Long(i)) => *i == 0,
        _ => true,
    }
}

/// Whether some length may be negative.
fn has_negative(l: &Vec<Expr>) -> (r: bool)
    ensures
        r == any_negative(exprs(l@)),
{
    let mut i: usize = 0;
    while i < l.len()
        invariant
            i <= l.len(),
            forall|j: int| 0 <= j < i ==> !may_be_negative(#[trigger] exprs(l@)[j]),
        decreases l.len() - i,
    {
        assert(exprs(l@)[i as int] == l@[i as int]@);
        let negative = match &l[i] {
            Expr::Const(ConstVal::Int(n)) => *n < 0,
            _ => true,
        };
        if negative {
            return true;
        }
        i += 1;
    }
    false
}

/// Whether a cast may fail.
fn cast_fails(t: &JType, e: &Expr) -> (r: bool)
    ensures
        r == may_fail_to_cast(t@, e@),
{
    matches!(t, JType::Object(_) | JType::Array(_)) && !t.is_object("java/lang/Object")
        && !matches!(e, Expr::Const(ConstVal::Null))
}

/// Whether the text of `e` comes from a method of its class.
fn needs_text(e: &Expr) -> (r: bool)
    ensures
        r == asks_for_text(e@),
{
    match e.type_ref().erased() {
        JType::Object(n) => !str_eq(n.as_str(), "java/lang/String"),
        _ => false,
    }
}

/// `has_side_effects` where there is a value.
pub fn has_side_effects_oexprs(o: &Option<Vec<Expr>>) -> (r: bool)
    ensures
        r == effectful_oexprs(opt_exprs(*o)),
    decreases o,
{
    match o {
        Some(x) => has_side_effects_exprs(x),
        None => false,
    }
}

/// `has_side_effects` over a list.
#[verifier::loop_isolation(false)]
pub fn has_side_effects_exprs(l: &Vec<Expr>) -> (r: bool)
    ensures
        r == effectful_exprs(exprs(l@)),
    decreases l,
{
    let mut i: usize = 0;
    while i < l.len()
        invariant
            i <= l.len(),
            forall|j: int| 0 <= j < i ==> !(effectful(#[trigger] exprs(l@)[j])),
        decreases l.len() - i,
    {
        assert(decreases_to!(l => l@[i as int]));
        assert(exprs(l@)[i as int] == l@[i as int]@);
        if has_side_effects(&l[i]) {
            return true;
        }
        i += 1;
    }
    false
}

/// `has_side_effects` inside a concatenation piece.
pub fn has_side_effects_part(p: &ConcatPart) -> (r: bool)
    ensures
        r == effectful_part(p@),
    decreases p,
{
    match p {
        ConcatPart::Str(e) => has_side_effects(e) || needs_text(e),
        ConcatPart::Const(_) => false,
    }
}

/// `has_side_effects` over a list.
#[verifier::loop_isolation(false)]
pub fn has_side_effects_parts(l: &Vec<ConcatPart>) -> (r: bool)
    ensures
        r == effectful_parts(concat_parts(l@)),
    decreases l,
{
    let mut i: usize = 0;
    while i < l.len()
        invariant
            i <= l.len(),
            forall|j: int| 0 <= j < i ==> !(effectful_part(#[trigger] concat_parts(l@)[j])),
        decreases l.len() - i,
    {
        assert(decreases_to!(l => l@[i as int]));
        assert(concat_parts(l@)[i as int] == l@[i as int]@);
        if has_side_effects_part(&l[i]) {
            return true;
        }
        i += 1;
    }
    false
}

// ---------------------------------------------------------------------
// Constant folding.

/// Division that rounds toward zero and wraps around.
pub open spec fn quotient32(a: i32, b: i32) -> i32 {
    match a.checked_div(b) {
        Some(q) => q,
        None => i32::MIN,
    }
}

/// The remainder that goes with [`quotient32`].
pub open spec fn remainder32(a: i32, b: i32) -> i32 {
    match a.checked_rem(b) {
        Some(r) => r,
        None => 0,
    }
}

/// Division that rounds toward zero and wraps around.
pub open spec fn quotient64(a: i64, b: i64) -> i64 {
    match a.checked_div(b) {
        Some(q) => q,
        None => i64::MIN,
    }
}

/// The remainder that goes with [`quotient64`].
pub open spec fn remainder64(a: i64, b: i64) -> i64 {
    match a.checked_rem(b) {
        Some(r) => r,
        None => 0,
    }
}

/// The value of an operator on two `int` constants, as the virtual machine computes it.
pub open spec fn folded_ints(op: BinOp, a: i32, b: i32) -> Option<i32> {
    match op {
        BinOp::Add => Some(a.wrapping_add(b)),
        BinOp::Sub => Some(a.wrapping_sub(b)),
        BinOp::Mul => Some(a.wrapping_mul(b)),
        BinOp::Div => if b != 0 {
            Some(quotient32(a, b))
        } else {
            None
        },
        BinOp::Rem => if b != 0 {
            Some(remainder32(a, b))
        } else {
            None
        },
        BinOp::And => Some(a & b),
        BinOp::Or => Some(a | b),
        BinOp::Xor => Some(a ^ b),
        BinOp::Shl => Some(a.wrapping_shl(b as u32)),
        BinOp::Shr => Some(a.wrapping_shr(b as u32)),
        BinOp::Ushr => Some((a as u32).wrapping_shr(b as u32) as i32),
        _ => None,
    }
}

/// The value of an operator on two `long` constants.
pub open spec fn folded_longs(op: BinOp, a: i64, b: i64) -> Option<i64> {
    match op {
        BinOp::Add => Some(a.wrapping_add(b)),
        BinOp::Sub => Some(a.wrapping_sub(b)),
        BinOp::Mul => Some(a.wrapping_mul(b)),
        BinOp::Div => if b != 0 {
            Some(quotient64(a, b))
        } else {
            None
        },
        BinOp::Rem => if b != 0 {
            Some(remainder64(a, b))
        } else {
            None
        },
        _ => None,
    }
}

/// The value of an operator on two constants.
pub open spec fn folded_consts(op: BinOp, a: ConstValV, b: ConstValV) -> Option<ConstValV> {
    match (a, b) {
        (ConstValV::Int(x), ConstValV::Int(y)) => match folded_ints(op, x, y) {
            Some(v) => Some(ConstValV::Int(v)),
            None => None,
        },
        (ConstValV::Long(x), ConstValV::Long(y)) => match folded_longs(op, x, y) {
            Some(v) => Some(ConstValV::Long(v)),
            None => None,
        },
        (ConstValV::Str(x), ConstValV::Str(y)) => if op is Add {
            Some(ConstValV::Str(x + y))
        } else {
            None
        },
        _ => None,
    }
}

/// The value of an operator on two expressions, where both are constants.
pub open spec fn folded(op: BinOp, l: ExprV, r: ExprV) -> Option<ConstValV> {
    match (l, r) {
        (ExprV::Const(a), ExprV::Const(b)) => folded_consts(op, a, b),
        _ => None,
    }
}

/// The value of an operator on two `int` constants.
fn fold_ints(op: BinOp, a: i32, b: i32) -> (r: Option<i32>)
    ensures
        r == folded_ints(op, a, b),
{
    match op {
        BinOp::Add => Some(a.wrapping_add(b)),
        BinOp::Sub => Some(a.wrapping_sub(b)),
        BinOp::Mul => Some(a.wrapping_mul(b)),
        BinOp::Div => if b != 0 {
            match a.checked_div(b) {
                Some(q) => Some(q),
                None => Some(i32::MIN),
            }
        } else {
            None
        },
        BinOp::Rem => if b != 0 {
            match a.checked_rem(b) {
                Some(q) => Some(q),
                None => Some(0),
            }
        } else {
            None
        },
        BinOp::And => Some(a & b),
        BinOp::Or => Some(a | b),
        BinOp::Xor => Some(a ^ b),
        BinOp::Shl => Some(a.wrapping_shl(b as u32)),
        BinOp::Shr => Some(a.wrapping_shr(b as u32)),
        BinOp::Ushr => Some((a as u32).wrapping_shr(b as u32) as i32),
        _ => None,
    }
}

/// The value of an operator on two `long` constants.
fn fold_longs(op: BinOp, a: i64, b: i64) -> (r: Option<i64>)
    ensures
        r == folded_longs(op, a, b),
{
    match op {
        BinOp::Add => Some(a.wrapping_add(b)),
        BinOp::Sub => Some(a.wrapping_sub(b)),
        BinOp::Mul => Some(a.wrapping_mul(b)),
        BinOp::Div => if b != 0 {
            match a.checked_div(b) {
                Some(q) => Some(q),
                None => Some(i64::MIN),
            }
        } else {
            None
        },
        BinOp::Rem => if b != 0 {
            match a.checked_rem(b) {
                Some(q) => Some(q),
                None => Some(0),
            }
        } else {
            None
        },
        _ => None,
    }
}

/// Model of an optional constant.
pub open spec fn opt_const(o: Option<ConstVal>) -> Option<ConstValV> {
    match o {
        Some(c) => Some(c@),
        None => None,
    }
}

/// The value of an operator on two expressions, where both are constants.
pub fn fold_const_binop(op: BinOp, l: &Expr, r: &Expr) -> (v: Option<ConstVal>)
    ensures
        opt_const(v) == folded(op, l@, r@),
{
    match (l, r) {
        (Expr::Const(a), Expr::Const(b)) => match (a, b) {
            (ConstVal::Int(x), ConstVal::Int(y)) => match fold_ints(op, *x, *y) {
                Some(v) => Some(ConstVal::Int(v)),
                None => None,
            },
            (ConstVal::Long(x), ConstVal::Long(y)) => match fold_longs(op, *x, *y) {
                Some(v) => Some(ConstVal::Long(v)),
                None => None,
            },
            (ConstVal::Str(x), ConstVal::Str(y)) => match op {
                BinOp::Add => {
                    let mut s = x.clone();
                    s.append(y.as_str());
                    Some(ConstVal::Str(s))
                },
                _ => None,
            },
            _ => None,
        },
        _ => None,
    }
}

/// The negation of a numeric constant.
pub open spec fn negated_const(c: ConstValV) -> Option<ConstValV> {
    match c {
        ConstValV::Int(i) => Some(ConstValV::Int((0i32).wrapping_sub(i))),
        ConstValV::Long(i) => Some(ConstValV::Long((0i64).wrapping_sub(i))),
        ConstValV::Float(b) => Some(ConstValV::Float(negated_single(b))),
        ConstValV::Double(b) => Some(ConstValV::Double(negated_double(b))),
        _ => None,
    }
}

/// `-e`, computed where `e` is a constant.
pub open spec fn negation(e: ExprV) -> ExprV {
    match e {
        ExprV::Const(c) => match negated_const(c) {
            Some(v) => ExprV::Const(v),
            None => ExprV::Un { op: UnOp::Neg, e: Box::new(e) },
        },
        _ => ExprV::Un { op: UnOp::Neg, e: Box::new(e) },
    }
}

/// The negation of a numeric constant.
fn negate_const(c: &ConstVal) -> (r: Option<ConstVal>)
    ensures
        opt_const(r) == negated_const(c@),
{
    match c {
        ConstVal::Int(i) => {
            let zero: i32 = 0;
            Some(ConstVal::Int(zero.wrapping_sub(*i)))
        },
        ConstVal::Long(i) => {
            let zero: i64 = 0;
            Some(ConstVal::Long(zero.wrapping_sub(*i)))
        },
        ConstVal::Float(b) => Some(ConstVal::Float(negate_single(*b))),
        ConstVal::Double(b) => Some(ConstVal::Double(negate_double(*b))),
        _ => None,
    }
}

/// `-e`, computed where `e` is a constant.
pub fn neg(e: Expr) -> (r: Expr)
    ensures
        r@ == negation(e@),
{
    if let Expr::Const(c) = &e {
        if let Some(v) = negate_const(c) {
            return Expr::Const(v);
        }
    }
    Expr::Un { op: UnOp::Neg, e: Box::new(e) }
}

/// A constant converted to another type, where the result is computed.
pub open spec fn converted_const(to: JTypeV, c: ConstValV) -> Option<ConstValV> {
    match (to, c) {
        (JTypeV::Long, ConstValV::Int(i)) => Some(ConstValV::Long(i as i64)),
        (JTypeV::Float, ConstValV::Int(i)) => Some(
            ConstValV::Float(single_bits(i < 0, magnitude(i as int)) as u32),
        ),
        (JTypeV::Double, ConstValV::Int(i)) => Some(
            ConstValV::Double(double_bits(i < 0, magnitude(i as int)) as u64),
        ),
        (JTypeV::Double, ConstValV::Long(i)) => Some(
            ConstValV::Double(double_bits(i < 0, magnitude(i as int)) as u64),
        ),
        (JTypeV::Float, ConstValV::Long(i)) => Some(
            ConstValV::Float(single_bits(i < 0, magnitude(i as int)) as u32),
        ),
        (JTypeV::Double, ConstValV::Float(b)) => Some(ConstValV::Double(widened(b) as u64)),
        _ => None,
    }
}

/// `e` converted to a primitive type: nothing to do where it has that type, computed
/// for a constant, else a cast.
pub open spec fn conversion(e: ExprV, to: JTypeV) -> ExprV {
    if erase(type_of(e)) == to {
        e
    } else {
        match e {
            ExprV::Const(c) => match converted_const(to, c) {
                Some(v) => ExprV::Const(v),
                None => ExprV::Cast { ty: TypeRefV::J(to), e: Box::new(e) },
            },
            _ => ExprV::Cast { ty: TypeRefV::J(to), e: Box::new(e) },
        }
    }
}

/// A constant converted to another type.
fn convert_const(to: &JType, c: &ConstVal) -> (r: Option<ConstVal>)
    ensures
        opt_const(r) == converted_const(to@, c@),
{
    match (to, c) {
        (JType::Long, ConstVal::Int(i)) => Some(ConstVal::Long(*i as i64)),
        (JType::Float, ConstVal::Int(i)) => Some(ConstVal::Float(to_single(*i as i64))),
        (JType::Double, ConstVal::Int(i)) => Some(ConstVal::Double(to_double(*i as i64))),
        (JType::Double, ConstVal::Long(i)) => Some(ConstVal::Double(to_double(*i))),
        (JType::Float, ConstVal::Long(i)) => Some(ConstVal::Float(to_single(*i))),
        (JType::Double, ConstVal::Float(b)) => Some(ConstVal::Double(widen(*b))),
        _ => None,
    }
}

/// Converts `e` to a primitive type.
pub fn convert(e: Expr, to: JType) -> (r: Expr)
    ensures
        r@ == conversion(e@, to@),
{
    if e.type_ref().erased().same(&to) {
        return e;
    }
    if let Expr::Const(c) = &e {
        if let Some(v) = convert_const(&to, c) {
            return Expr::Const(v);
        }
    }
    Expr::Cast { ty: TypeRef::J(to), e: Box::new(e) }
}

// ---------------------------------------------------------------------
// String concatenation.

/// Concatenation pieces while a recipe is read: those done, the constant text at hand,
/// and how many arguments and constants are used up.
pub ghost struct RecipeV {
    pub parts: Seq<ConcatPartV>,
    pub text: Seq<char>,
    pub used: nat,
    pub constants: nat,
}

/// `parts` with the constant text, where there is any.
pub open spec fn with_text(parts: Seq<ConcatPartV>, text: Seq<char>) -> Seq<ConcatPartV> {
    if text.len() > 0 {
        parts.push(ConcatPartV::Const(text))
    } else {
        parts
    }
}

/// The pieces after one more character of a recipe: `\u{1}` stands for the next
/// argument, `\u{2}` for the next constant.
pub open spec fn recipe_step(
    st: RecipeV,
    c: char,
    args: Seq<ExprV>,
    consts: Seq<Seq<char>>,
) -> RecipeV {
    if c == '\u{1}' {
        let parts = with_text(st.parts, st.text);
        if st.used < args.len() {
            RecipeV {
                parts: parts.push(ConcatPartV::Str(args[st.used as int])),
                text: seq![],
                used: st.used + 1,
                constants: st.constants,
            }
        } else {
            RecipeV { parts, text: seq![], ..st }
        }
    } else if c == '\u{2}' {
        if st.constants < consts.len() {
            RecipeV {
                text: st.text + consts[st.constants as int],
                constants: st.constants + 1,
                ..st
            }
        } else {
            st
        }
    } else {
        RecipeV { text: st.text.push(c), ..st }
    }
}

/// The pieces after the characters of `recipe`.
pub open spec fn recipe_read(
    recipe: Seq<char>,
    args: Seq<ExprV>,
    consts: Seq<Seq<char>>,
) -> RecipeV
    decreases recipe.len(),
{
    if recipe.len() == 0 {
        RecipeV { parts: seq![], text: seq![], used: 0, constants: 0 }
    } else {
        recipe_step(recipe_read(recipe.drop_last(), args, consts), recipe.last(), args, consts)
    }
}

/// The pieces that a recipe describes.
pub open spec fn recipe_parts(
    recipe: Seq<char>,
    args: Seq<ExprV>,
    consts: Seq<Seq<char>>,
) -> Seq<ConcatPartV> {
    let st = recipe_read(recipe, args, consts);
    with_text(st.parts, st.text)
}

/// Adds the constant text, where there is any.
fn push_text(parts: &mut Vec<ConcatPart>, text: String)
    ensures
        concat_parts(final(parts)@) == with_text(concat_parts(old(parts)@), text@),
{
    if !text.as_str().is_empty() {
        parts.push(ConcatPart::Const(text));
        assert(concat_parts(parts@) =~= concat_parts(old(parts)@).push(
            ConcatPartV::Const(text@),
        ));
    }
}

/// Reads a recipe of `StringConcatFactory`: `\u{1}` stands for the next argument,
/// `\u{2}` for the next of `consts`.
#[verifier::loop_isolation(false)]
pub fn parse_concat_recipe(
    recipe: &str,
    args: Vec<Expr>,
    consts: &Vec<String>,
) -> (r: Vec<ConcatPart>)
    ensures
        concat_parts(r@) == recipe_parts(recipe@, exprs(args@), strs(consts@)),
{
    let ghost xs = exprs(args@);
    let ghost cs = strs(consts@);
    let n = recipe.unicode_len();
    let mut parts: Vec<ConcatPart> = Vec::new();
    let mut text: String = String::new();
    let mut used: usize = 0;
    let mut constants: usize = 0;
    let mut i: usize = 0;
    assert(concat_parts(parts@) =~= seq![]);
    while i < n
        invariant
            i <= n,
            used <= args.len(),
            constants <= consts.len(),
            recipe_read(recipe@.take(i as int), xs, cs) == (RecipeV {
                parts: concat_parts(parts@),
                text: text@,
                used: used as nat,
                constants: constants as nat,
            }),
        decreases n - i,
    {
        assert(recipe@.take(i + 1).drop_last() =~= recipe@.take(i as int));
        let c = recipe.get_char(i);
        if c == '\u{1}' {
            push_text(&mut parts, text);
            text = String::new();
            if used < args.len() {
                assert(xs[used as int] == args@[used as int]@);
                let ghost before = concat_parts(parts@);
                parts.push(ConcatPart::Str(clone_expr(&args[used])));
                assert(concat_parts(parts@) =~= before.push(ConcatPartV::Str(xs[used as int])));
                used += 1;
            }
        } else if c == '\u{2}' {
            if constants < consts.len() {
                assert(cs[constants as int] == consts@[constants as int]@);
                text.append(consts[constants].as_str());
                constants += 1;
            }
        } else {
            let ghost before = text@;
            text.append(recipe.substring_char(i, i + 1));
            assert(text@ =~= before.push(c));
        }
        i += 1;
    }
    assert(recipe@.take(i as int) =~= recipe@);
    push_text(&mut parts, text);
    parts
}

/// The arguments among concatenation pieces, in order.
pub open spec fn part_args(parts: Seq<ConcatPartV>) -> Seq<ExprV>
    decreases parts.len(),
{
    if parts.len() == 0 {
        seq![]
    } else {
        match parts.last() {
            ConcatPartV::Str(e) => part_args(parts.drop_last()).push(e),
            ConcatPartV::Const(_) => part_args(parts.drop_last()),
        }
    }
}

/// How many argument places a recipe has.
pub open spec fn places(recipe: Seq<char>) -> nat
    decreases recipe.len(),
{
    if recipe.len() == 0 {
        0
    } else {
        places(recipe.drop_last()) + if recipe.last() == '\u{1}' {
            1nat
        } else {
            0nat
        }
    }
}

/// The pieces read so far hold the arguments used up, in order.
proof fn lemma_recipe_args(recipe: Seq<char>, args: Seq<ExprV>, consts: Seq<Seq<char>>)
    ensures
        ({
            let st = recipe_read(recipe, args, consts);
            &&& st.used <= args.len()
            &&& st.used == if places(recipe) <= args.len() {
                places(recipe)
            } else {
                args.len()
            }
            &&& part_args(st.parts) == args.take(st.used as int)
        }),
    decreases recipe.len(),
{
    if recipe.len() == 0 {
        assert(args.take(0) =~= seq![]);
    } else {
        let prev = recipe_read(recipe.drop_last(), args, consts);
        lemma_recipe_args(recipe.drop_last(), args, consts);
        let st = recipe_read(recipe, args, consts);
        if recipe.last() == '\u{1}' {
            let parts = with_text(prev.parts, prev.text);
            if prev.text.len() > 0 {
                assert(parts.drop_last() =~= prev.parts);
            }
            assert(part_args(parts) == part_args(prev.parts));
            if prev.used < args.len() {
                assert(st.parts.drop_last() =~= parts);
                assert(args.take(st.used as int) =~= args.take(prev.used as int).push(
                    args[prev.used as int],
                ));
            }
        }
    }
}

/// A recipe with a place for each argument keeps all of them, in order.
pub proof fn law_recipe_keeps_args(recipe: Seq<char>, args: Seq<ExprV>, consts: Seq<Seq<char>>)
    requires
        places(recipe) >= args.len(),
    ensures
        part_args(recipe_parts(recipe, args, consts)) == args,
{
    lemma_recipe_args(recipe, args, consts);
    let st = recipe_read(recipe, args, consts);
    let parts = with_text(st.parts, st.text);
    if st.text.len() > 0 {
        assert(parts.drop_last() =~= st.parts);
    }
    assert(args.take(args.len() as int) =~= args);
}

/// A character or an argument of a concatenation.
pub ghost enum RecipeItem {
    Text(char),
    Arg(ExprV),
}

/// A character of a text.
pub open spec fn text_item(c: char) -> RecipeItem {
    RecipeItem::Text(c)
}

/// The characters of a text.
pub open spec fn text_items(s: Seq<char>) -> Seq<RecipeItem> {
    s.map_values(|c: char| text_item(c))
}

/// The characters and arguments of the pieces of a concatenation, in order.
pub open spec fn part_items(parts: Seq<ConcatPartV>) -> Seq<RecipeItem>
    decreases parts.len(),
{
    if parts.len() == 0 {
        seq![]
    } else {
        part_items(parts.drop_last()) + match parts.last() {
            ConcatPartV::Str(e) => seq![RecipeItem::Arg(e)],
            ConcatPartV::Const(s) => text_items(s),
        }
    }
}

/// How many places for constants a recipe has.
pub open spec fn constant_places(recipe: Seq<char>) -> nat
    decreases recipe.len(),
{
    if recipe.len() == 0 {
        0
    } else {
        constant_places(recipe.drop_last()) + if recipe.last() == '\u{2}' {
            1nat
        } else {
            0nat
        }
    }
}

/// What a recipe describes: each place holds its argument or the text of its constant,
/// every other character stands for itself.
pub open spec fn described(
    recipe: Seq<char>,
    args: Seq<ExprV>,
    consts: Seq<Seq<char>>,
) -> Seq<RecipeItem>
    decreases recipe.len(),
{
    if recipe.len() == 0 {
        seq![]
    } else {
        let front = recipe.drop_last();
        described(front, args, consts) + if recipe.last() == '\u{1}' {
            if places(front) < args.len() {
                seq![RecipeItem::Arg(args[places(front) as int])]
            } else {
                seq![]
            }
        } else if recipe.last() == '\u{2}' {
            if constant_places(front) < consts.len() {
                text_items(consts[constant_places(front) as int])
            } else {
                seq![]
            }
        } else {
            seq![text_item(recipe.last())]
        }
    }
}

/// Adding a text adds its characters.
proof fn lemma_with_text(parts: Seq<ConcatPartV>, text: Seq<char>)
    ensures
        part_items(with_text(parts, text)) == part_items(parts) + text_items(text),
{
    if text.len() > 0 {
        assert(with_text(parts, text).drop_last() =~= parts);
    } else {
        assert(part_items(parts) + text_items(text) =~= part_items(parts));
    }
}

/// What is read so far holds what the recipe describes so far.
proof fn lemma_recipe_items(recipe: Seq<char>, args: Seq<ExprV>, consts: Seq<Seq<char>>)
    ensures
        ({
            let st = recipe_read(recipe, args, consts);
            &&& part_items(st.parts) + text_items(st.text) == described(recipe, args, consts)
            &&& st.constants == if constant_places(recipe) <= consts.len() {
                constant_places(recipe)
            } else {
                consts.len()
            }
        }),
    decreases recipe.len(),
{
    let st = recipe_read(recipe, args, consts);
    if recipe.len() == 0 {
        assert(part_items(st.parts) + text_items(st.text) =~= described(recipe, args, consts));
    } else {
        let front = recipe.drop_last();
        let prev = recipe_read(front, args, consts);
        lemma_recipe_items(front, args, consts);
        lemma_recipe_args(front, args, consts);
        let done = described(front, args, consts);
        if recipe.last() == '\u{1}' {
            lemma_with_text(prev.parts, prev.text);
            let parts = with_text(prev.parts, prev.text);
            if prev.used < args.len() {
                assert(st.parts.drop_last() =~= parts);
            }
            assert(part_items(st.parts) + text_items(st.text) =~= part_items(st.parts));
            assert(part_items(st.parts) =~= described(recipe, args, consts));
        } else if recipe.last() == '\u{2}' {
            if prev.constants < consts.len() {
                let more = consts[prev.constants as int];
                assert(text_items(prev.text + more) =~= text_items(prev.text) + text_items(more));
                assert(part_items(prev.parts) + text_items(prev.text + more) =~= done + text_items(
                    more,
                ));
            } else {
                assert(done + Seq::<RecipeItem>::empty() =~= done);
            }
        } else {
            let c = recipe.last();
            assert(text_items(prev.text.push(c)) =~= text_items(prev.text).push(
                text_item(c),
            ));
            assert(part_items(prev.parts) + text_items(prev.text.push(c)) =~= done.push(
                text_item(c),
            ));
            assert(done.push(text_item(c)) =~= done + seq![text_item(c)]);
        }
    }
}

/// The pieces of a recipe are what it describes: its text, its constants and its
/// arguments, in order.
pub proof fn law_recipe_is_followed(recipe: Seq<char>, args: Seq<ExprV>, consts: Seq<Seq<char>>)
    ensures
        part_items(recipe_parts(recipe, args, consts)) == described(recipe, args, consts),
{
    lemma_recipe_items(recipe, args, consts);
    let st = recipe_read(recipe, args, consts);
    lemma_with_text(st.parts, st.text);
}

/// `StringBuilder` or `StringBuffer`.
pub open spec fn is_string_builder(cls: Seq<char>) -> bool {
    cls == "java/lang/StringBuilder"@ || cls == "java/lang/StringBuffer"@
}

/// Whether `cls` is `StringBuilder` or `StringBuffer`.
pub fn string_builder(cls: &str) -> (r: bool)
    ensures
        r == is_string_builder(cls@),
{
    str_eq(cls, "java/lang/StringBuilder") || str_eq(cls, "java/lang/StringBuffer")
}

/// The pieces that `new StringBuilder(..).append(..)..` joins; none where the chain
/// starts otherwise.
pub open spec fn appended(e: ExprV) -> Option<Seq<ConcatPartV>>
    decreases e,
{
    match e {
        ExprV::Method { owner, cls, name, args, .. } => match owner {
            Some(o) => if name == "append"@ && is_string_builder(cls) && args.len() == 1 {
                match appended(*o) {
                    Some(parts) => Some(parts.push(ConcatPartV::Str(args[0]))),
                    None => None,
                }
            } else {
                None
            },
            None => None,
        },
        ExprV::New { cls, args, raw, .. } => if raw || !is_string_builder(cls) {
            None
        } else if args.len() == 0 {
            Some(seq![])
        } else if args.len() == 1
            && erase(type_of(args[0])) == JTypeV::Object("java/lang/String"@) {
            Some(seq![ConcatPartV::Str(args[0])])
        } else {
            None
        },
        _ => None,
    }
}

/// The pieces of an append chain that joins at least one.
pub open spec fn append_chain(e: ExprV) -> Option<Seq<ConcatPartV>> {
    match appended(e) {
        Some(parts) => if parts.len() > 0 {
            Some(parts)
        } else {
            None
        },
        None => None,
    }
}

/// Model of optional pieces.
pub open spec fn opt_parts(o: Option<Vec<ConcatPart>>) -> Option<Seq<ConcatPartV>> {
    match o {
        Some(v) => Some(concat_parts(v@)),
        None => None,
    }
}

/// The pieces that an append chain joins.
fn collect_appended(e: &Expr) -> (r: Option<Vec<ConcatPart>>)
    ensures
        opt_parts(r) == appended(e@),
    decreases e,
{
    match e {
        Expr::Method { owner, cls, name, args, .. } => {
            assert(exprs(args@).len() == args@.len());
            assert(opt_box(*owner) == (match owner {
                Some(o) => Some(Box::new(o@)),
                None => None,
            }));
            match owner {
                Some(o) => {
                    if !(str_eq(name.as_str(), "append") && string_builder(cls.as_str())
                        && args.len() == 1) {
                        return None;
                    }
                    assert(exprs(args@)[0] == args@[0]@);
                    match collect_appended(o) {
                        Some(parts) => {
                            let mut parts = parts;
                            let ghost before = concat_parts(parts@);
                            parts.push(ConcatPart::Str(clone_expr(&args[0])));
                            assert(concat_parts(parts@) =~= before.push(
                                ConcatPartV::Str(args@[0]@),
                            ));
                            Some(parts)
                        },
                        None => None,
                    }
                },
                None => None,
            }
        },
        Expr::New { cls, args, raw, .. } => {
            assert(exprs(args@).len() == args@.len());
            if *raw || !string_builder(cls.as_str()) {
                return None;
            }
            let mut parts: Vec<ConcatPart> = Vec::new();
            if args.len() == 0 {
                assert(concat_parts(parts@) =~= seq![]);
                return Some(parts);
            }
            if args.len() == 1 {
                assert(exprs(args@)[0] == args@[0]@);
                if args[0].type_ref().erased().is_object("java/lang/String") {
                    parts.push(ConcatPart::Str(clone_expr(&args[0])));
                    assert(concat_parts(parts@) =~= seq![ConcatPartV::Str(args@[0]@)]);
                    return Some(parts);
                }
            }
            None
        },
        _ => None,
    }
}

/// Contracts a `new StringBuilder(..).append(..)..` chain into the pieces that it joins.
pub fn collect_append_chain(owner: &Expr) -> (r: Option<Vec<ConcatPart>>)
    ensures
        opt_parts(r) == append_chain(owner@),
{
    match collect_appended(owner) {
        Some(parts) => {
            assert(concat_parts(parts@).len() == parts@.len());
            if parts.len() > 0 {
                Some(parts)
            } else {
                None
            }
        },
        None => None,
    }
}

// ---------------------------------------------------------------------
// Zero and one where a boolean is meant.

/// `e` where a boolean is meant: `c ? 1 : 0` is `c`, `c ? 0 : 1` is `!c`, and a boolean
/// compared with zero is itself or its negation.
pub open spec fn booleanized(e: ExprV) -> ExprV {
    match e {
        ExprV::Cond { c, t, f } => if *t == int_value(1) && *f == int_value(0) {
            *c
        } else if *t == int_value(0) && *f == int_value(1) {
            ExprV::Un { op: UnOp::Not, e: c }
        } else {
            e
        },
        ExprV::Bin { op, l, r, .. } => if *r == int_value(0) && erase(type_of(*l)) is Boolean {
            match op {
                BinOp::Eq => ExprV::Un { op: UnOp::Not, e: l },
                BinOp::Ne => *l,
                _ => e,
            }
        } else {
            e
        },
        _ => e,
    }
}

/// What becomes of an expression where a boolean is meant.
enum Boolean {
    Keep,
    First,
    Negated,
}

/// What becomes of `e` where a boolean is meant.
fn boolean_form(e: &Expr) -> (r: Boolean)
    ensures
        match r {
            Boolean::Keep => booleanized(e@) == e@,
            Boolean::First => match e@ {
                ExprV::Cond { c, .. } => booleanized(e@) == *c,
                ExprV::Bin { l, .. } => booleanized(e@) == *l,
                _ => false,
            },
            Boolean::Negated => match e@ {
                ExprV::Cond { c, .. } => booleanized(e@) == (ExprV::Un { op: UnOp::Not, e: c }),
                ExprV::Bin { l, .. } => booleanized(e@) == (ExprV::Un { op: UnOp::Not, e: l }),
                _ => false,
            },
        },
{
    match e {
        Expr::Cond { t, f, .. } => {
            if is_int(t, 1) && is_int(f, 0) {
                Boolean::First
            } else if is_int(t, 0) && is_int(f, 1) {
                Boolean::Negated
            } else {
                Boolean::Keep
            }
        },
        Expr::Bin { op, l, r, .. } => {
            if is_int(r, 0) && matches!(l.type_ref().erased(), JType::Boolean) {
                match op {
                    BinOp::Eq => Boolean::Negated,
                    BinOp::Ne => Boolean::First,
                    _ => Boolean::Keep,
                }
            } else {
                Boolean::Keep
            }
        },
        _ => Boolean::Keep,
    }
}

/// Rewrites `e` where a boolean is meant.
pub fn booleanize(e: &mut Expr)
    ensures
        final(e)@ == booleanized(old(e)@),
{
    match boolean_form(e) {
        Boolean::Keep => {},
        Boolean::First => match take_expr(e) {
            Expr::Cond { c, .. } => {
                *e = *c;
            },
            Expr::Bin { l, .. } => {
                *e = *l;
            },
            other => {
                *e = other;
            },
        },
        Boolean::Negated => match take_expr(e) {
            Expr::Cond { c, .. } => {
                *e = Expr::Un { op: UnOp::Not, e: c };
            },
            Expr::Bin { l, .. } => {
                *e = Expr::Un { op: UnOp::Not, e: l };
            },
            other => {
                *e = other;
            },
        },
    }
}

} // verus!
