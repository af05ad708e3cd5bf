//! Conditions that the bytecode computes as the numbers 0 and 1, turned back into
//! boolean expressions.
use crate::ctor_guards::{negate, negated};
use crate::expr::{
    concat_parts, exprs, is_boolean_op, opt_box, opt_expr, opt_exprs, take_expr, type_of, BinOp,
    ConcatPart, ConcatPartV, ConstVal, ConstValV, Expr, ExprV, UnOp,
};
use crate::retype::cast_to;
use crate::stmt::{
    case_groups, catch_list, opt_stmt, stmts, CaseGroup, CaseGroupV, Catch, CatchV, Stmt, StmtV,
};
use crate::types::{erase, java_types, JType, JTypeV, TypeRef, TypeRefV};
use vstd::prelude::*;

verus! {

/// The constant `n`.
pub open spec fn int_value(n: i32) -> ExprV {
    ExprV::Const(ConstValV::Int(n))
}

/// The constant 0 or 1.
pub open spec fn is_bit(e: ExprV) -> bool {
    e == int_value(0) || e == int_value(1)
}

/// A conditional between the constants 0 and 1.
pub open spec fn is_bit_choice(e: ExprV) -> bool {
    e matches ExprV::Cond { t, f, .. } && is_bit(*t) && is_bit(*f)
}

/// Numeric primitive types; `boolean` is none.
pub open spec fn is_number(t: JTypeV) -> bool {
    t is Int || t is Long || t is Short || t is Byte || t is Char || t is Float || t is Double
}

/// The static type of `e` is `boolean`.
pub open spec fn typed_bool(e: ExprV) -> bool {
    erase(type_of(e)) is Boolean
}

/// `e ? 1 : 0`.
pub open spec fn as_bit(e: ExprV) -> ExprV {
    ExprV::Cond { c: Box::new(e), t: Box::new(int_value(1)), f: Box::new(int_value(0)) }
}

/// A boolean expression, as a number where the context is numeric.
pub open spec fn num_wrapped(num: bool, e: ExprV) -> ExprV {
    if num {
        as_bit(e)
    } else {
        e
    }
}

/// `l op r` without a recorded type.
pub open spec fn logic(op: BinOp, l: ExprV, r: ExprV) -> ExprV {
    ExprV::Bin { op, l: Box::new(l), r: Box::new(r), ty: None }
}

/// Whether `e` is the constant `n`.
pub fn is_int(e: &Expr, n: i32) -> (r: bool)
    ensures
        r == (e@ == int_value(n)),
{
    match e {
        Expr::Const(ConstVal::Int(i)) => *i == n,
        _ => false,
    }
}

/// Whether `e` is the constant 0 or 1.
pub fn bit(e: &Expr) -> (r: bool)
    ensures
        r == is_bit(e@),
{
    is_int(e, 0) || is_int(e, 1)
}

/// Whether `e` is a conditional between the constants 0 and 1.
pub fn bit_choice(e: &Expr) -> (r: bool)
    ensures
        r == is_bit_choice(e@),
{
    match e {
        Expr::Cond { t, f, .. } => bit(t) && bit(f),
        _ => false,
    }
}

/// Whether `t` is a numeric primitive type.
pub fn number(t: &JType) -> (r: bool)
    ensures
        r == is_number(t@),
{
    matches!(
        t,
        JType::Int | JType::Long | JType::Short | JType::Byte | JType::Char | JType::Float
        | JType::Double
    )
}

/// Whether the static type of `e` is `boolean`.
pub fn bool_typed(e: &Expr) -> (r: bool)
    ensures
        r == typed_bool(e@),
{
    matches!(e.type_ref().erased(), JType::Boolean)
}

/// The constant `n`.
pub fn make_int(n: i32) -> (r: Expr)
    ensures
        r@ == int_value(n),
{
    Expr::Const(ConstVal::Int(n))
}

/// A boolean expression, as a number where the context is numeric.
pub fn wrap_num(numeric_parent: bool, b: Expr) -> (r: Expr)
    ensures
        r@ == num_wrapped(numeric_parent, b@),
{
    if !numeric_parent {
        return b;
    }
    Expr::Cond { c: Box::new(b), t: Box::new(make_int(1)), f: Box::new(make_int(0)) }
}

/// `l op r` without a recorded type.
fn make_logic(op: BinOp, l: Expr, r: Expr) -> (x: Expr)
    ensures
        x@ == logic(op, l@, r@),
{
    Expr::Bin { op, l: Box::new(l), r: Box::new(r), ty: None }
}

// ---------------------------------------------------------------------
// Nested conditionals.

/// A tree of conditionals that end in 0 and 1 as a boolean expression:
/// `a ? (b ? 0 : 1) : 0` is `a && !b`.
pub open spec fn deep_bool(e: ExprV) -> ExprV
    decreases e,
{
    match e {
        ExprV::Cond { c, t, f } => {
            let c2 = deep_bool(*c);
            if *t == int_value(1) && *f == int_value(0) {
                c2
            } else if *t == int_value(0) && *f == int_value(1) {
                negated(c2)
            } else if *t == int_value(1) && (is_bit(*f) || is_bit_choice(*f)) {
                logic(BinOp::LogOr, c2, deep_bool(*f))
            } else if *t == int_value(0) && (is_bit(*f) || is_bit_choice(*f)) {
                logic(BinOp::LogAnd, negated(c2), deep_bool(*f))
            } else if (is_bit(*t) || is_bit_choice(*t)) && *f == int_value(1) {
                logic(BinOp::LogOr, negated(c2), deep_bool(*t))
            } else if (is_bit(*t) || is_bit_choice(*t)) && *f == int_value(0) {
                logic(BinOp::LogAnd, c2, deep_bool(*t))
            } else {
                ExprV::Cond {
                    c: Box::new(c2),
                    t: Box::new(deep_bool(*t)),
                    f: Box::new(deep_bool(*f)),
                }
            }
        },
        _ => e,
    }
}

/// Turns a tree of conditionals that end in 0 and 1 into a boolean expression.
pub fn boolify_cond_deep(e: Expr) -> (r: Expr)
    ensures
        r@ == deep_bool(e@),
    decreases e,
{
    match e {
        Expr::Cond { c, t, f } => {
            let c2 = boolify_cond_deep(*c);
            if is_int(&t, 1) && is_int(&f, 0) {
                return c2;
            }
            if is_int(&t, 0) && is_int(&f, 1) {
                return negate(c2);
            }
            let t_bits = bit(&t) || bit_choice(&t);
            let f_bits = bit(&f) || bit_choice(&f);
            if is_int(&t, 1) && f_bits {
                make_logic(BinOp::LogOr, c2, boolify_cond_deep(*f))
            } else if is_int(&t, 0) && f_bits {
                make_logic(BinOp::LogAnd, negate(c2), boolify_cond_deep(*f))
            } else if t_bits && is_int(&f, 1) {
                make_logic(BinOp::LogOr, negate(c2), boolify_cond_deep(*t))
            } else if t_bits && is_int(&f, 0) {
                make_logic(BinOp::LogAnd, c2, boolify_cond_deep(*t))
            } else {
                Expr::Cond {
                    c: Box::new(c2),
                    t: Box::new(boolify_cond_deep(*t)),
                    f: Box::new(boolify_cond_deep(*f)),
                }
            }
        },
        other => other,
    }
}

// ---------------------------------------------------------------------
// One conditional.

/// A branch that makes its sibling a number.
pub open spec fn numeric_sibling(e: ExprV) -> bool {
    match e {
        ExprV::Const(ConstValV::Int(n)) => n != 0 && n != 1,
        ExprV::Const(ConstValV::Long(_)) => true,
        ExprV::Cond { .. } | ExprV::Un { .. } | ExprV::InstanceOf { .. } => false,
        _ => is_number(erase(type_of(e))),
    }
}

/// A branch that can be read as a truth value.
pub open spec fn bool_branch(e: ExprV) -> bool {
    typed_bool(e) || is_bit_choice(e)
}

/// `c ? 1 : 0` is `c`, `c ? 0 : 1` is `!c`; anything else stays.
pub open spec fn one_bool(e: ExprV) -> ExprV {
    match e {
        ExprV::Cond { c, t, f } => if *t == int_value(1) && *f == int_value(0) {
            *c
        } else if *t == int_value(0) && *f == int_value(1) {
            negated(*c)
        } else {
            e
        },
        _ => e,
    }
}

/// A conditional whose branches are truth values, in boolean form; in a numeric
/// context that form is made a number again.
pub open spec fn cond_folded(c: ExprV, t: ExprV, f: ExprV, num: bool) -> ExprV {
    if t == int_value(1) && f == int_value(0) {
        if num {
            as_bit(deep_bool(c))
        } else {
            c
        }
    } else if t == int_value(0) && f == int_value(1) {
        if num {
            as_bit(negated(deep_bool(c)))
        } else {
            negated(c)
        }
    } else if t == int_value(1) && bool_branch(f) {
        num_wrapped(num, logic(BinOp::LogOr, c, one_bool(f)))
    } else if t == int_value(0) && bool_branch(f) {
        num_wrapped(num, logic(BinOp::LogAnd, negated(c), one_bool(f)))
    } else if bool_branch(t) && f == int_value(1) {
        num_wrapped(num, logic(BinOp::LogOr, negated(c), one_bool(t)))
    } else if bool_branch(t) && f == int_value(0) {
        num_wrapped(num, logic(BinOp::LogAnd, c, one_bool(t)))
    } else {
        ExprV::Cond { c: Box::new(c), t: Box::new(t), f: Box::new(f) }
    }
}

/// Whether a branch makes its sibling a number.
fn sibling_numeric(e: &Expr) -> (r: bool)
    ensures
        r == numeric_sibling(e@),
{
    match e {
        Expr::Const(ConstVal::Int(n)) => *n != 0 && *n != 1,
        Expr::Const(ConstVal::Long(_)) => true,
        Expr::Cond { .. } | Expr::Un { .. } | Expr::InstanceOf { .. } => false,
        _ => number(&e.type_ref().erased()),
    }
}

/// Whether a branch can be read as a truth value.
fn branch_bool(e: &Expr) -> (r: bool)
    ensures
        r == bool_branch(e@),
{
    bool_typed(e) || bit_choice(e)
}

/// Reads a conditional between 0 and 1 as a truth value.
fn boolify(e: Expr) -> (r: Expr)
    ensures
        r@ == one_bool(e@),
{
    match e {
        Expr::Cond { c, t, f } => if is_int(&t, 1) && is_int(&f, 0) {
            *c
        } else if is_int(&t, 0) && is_int(&f, 1) {
            negate(*c)
        } else {
            Expr::Cond { c, t, f }
        },
        other => other,
    }
}

/// Folds a conditional.
fn fold_cond(c: Expr, t: Expr, f: Expr, num: bool) -> (r: Expr)
    ensures
        r@ == cond_folded(c@, t@, f@, num),
{
    if is_int(&t, 1) && is_int(&f, 0) {
        if num {
            wrap_num(true, boolify_cond_deep(c))
        } else {
            c
        }
    } else if is_int(&t, 0) && is_int(&f, 1) {
        if num {
            wrap_num(true, negate(boolify_cond_deep(c)))
        } else {
            negate(c)
        }
    } else if is_int(&t, 1) && branch_bool(&f) {
        wrap_num(num, make_logic(BinOp::LogOr, c, boolify(f)))
    } else if is_int(&t, 0) && branch_bool(&f) {
        wrap_num(num, make_logic(BinOp::LogAnd, negate(c), boolify(f)))
    } else if branch_bool(&t) && is_int(&f, 1) {
        wrap_num(num, make_logic(BinOp::LogOr, negate(c), boolify(t)))
    } else if branch_bool(&t) && is_int(&f, 0) {
        wrap_num(num, make_logic(BinOp::LogAnd, c, boolify(t)))
    } else {
        Expr::Cond { c: Box::new(c), t: Box::new(t), f: Box::new(f) }
    }
}

// ---------------------------------------------------------------------
// Binary operations.

/// An operand that makes a bit operation a logical one.
pub open spec fn bool_side(x: ExprV, other: ExprV) -> bool {
    match x {
        ExprV::Un { op, .. } => op is Not || typed_bool(x),
        ExprV::InstanceOf { .. } => true,
        ExprV::Bin { op, .. } => is_boolean_op(op),
        ExprV::Cond { .. } => is_bit_choice(x) && typed_bool(other),
        _ => typed_bool(x),
    }
}

/// An operand that reads as a truth value by its form or type.
pub open spec fn bool_ish(x: ExprV) -> bool {
    typed_bool(x) || (x matches ExprV::Un { op, .. } && op is Not) || x is InstanceOf
}

/// The operands of the operation are numbers.
pub open spec fn numeric_operands(op: BinOp, l: ExprV, r: ExprV) -> bool {
    match op {
        BinOp::Lt | BinOp::Ge | BinOp::Gt | BinOp::Le => true,
        BinOp::Eq | BinOp::Ne => !bool_ish(l) && !bool_ish(r) && (is_number(erase(type_of(l)))
            || is_number(erase(type_of(r)))),
        BinOp::RefEq | BinOp::RefNe | BinOp::LogAnd | BinOp::LogOr | BinOp::StrCat => false,
        BinOp::And | BinOp::Or | BinOp::Xor => !(bool_side(l, r) || bool_side(r, l)),
        _ => true,
    }
}

/// An expression that computes a truth value.
pub open spec fn boolish(x: ExprV) -> bool
    decreases x,
{
    match x {
        ExprV::Un { op, .. } => op is Not || typed_bool(x),
        ExprV::InstanceOf { .. } => true,
        ExprV::Bin { op, l, r, .. } => is_boolean_op(op) || ((op is And || op is Or || op is Xor)
            && boolish(*l) && boolish(*r)),
        _ => typed_bool(x),
    }
}

/// A binary operation on truth values: bit operations lose their recorded type,
/// and a comparison with 0 goes.
pub open spec fn bin_folded(op: BinOp, l: ExprV, r: ExprV, ty: Option<TypeRefV>) -> ExprV {
    if (op is Eq || op is Ne) && r == int_value(0) && (typed_bool(l) || boolish(l)) {
        if op is Eq {
            ExprV::Un { op: UnOp::Not, e: Box::new(l) }
        } else {
            l
        }
    } else {
        ExprV::Bin {
            op,
            l: Box::new(l),
            r: Box::new(r),
            ty: if (op is And || op is Or || op is Xor) && boolish(l) && boolish(r) {
                None
            } else {
                ty
            },
        }
    }
}

/// Whether an operand makes a bit operation a logical one.
fn side_bool(x: &Expr, other: &Expr) -> (r: bool)
    ensures
        r == bool_side(x@, other@),
{
    match x {
        Expr::Un { op, .. } => matches!(op, UnOp::Not) || bool_typed(x),
        Expr::InstanceOf { .. } => true,
        Expr::Bin { op, .. } => op.is_boolean(),
        Expr::Cond { .. } => bit_choice(x) && bool_typed(other),
        _ => bool_typed(x),
    }
}

/// Whether an operand reads as a truth value by its form or type.
fn ish_bool(x: &Expr) -> (r: bool)
    ensures
        r == bool_ish(x@),
{
    match x {
        Expr::Un { op, .. } => matches!(op, UnOp::Not) || bool_typed(x),
        Expr::InstanceOf { .. } => true,
        _ => bool_typed(x),
    }
}

/// Whether the operands of the operation are numbers.
fn operands_numeric(op: BinOp, l: &Expr, r: &Expr) -> (b: bool)
    ensures
        b == numeric_operands(op, l@, r@),
{
    match op {
        BinOp::Lt | BinOp::Ge | BinOp::Gt | BinOp::Le => true,
        BinOp::Eq | BinOp::Ne => !ish_bool(l) && !ish_bool(r) && (number(&l.type_ref().erased())
            || number(&r.type_ref().erased())),
        BinOp::RefEq | BinOp::RefNe | BinOp::LogAnd | BinOp::LogOr | BinOp::StrCat => false,
        BinOp::And | BinOp::Or | BinOp::Xor => !(side_bool(l, r) || side_bool(r, l)),
        _ => true,
    }
}

/// Whether `x` computes a truth value.
pub fn computes_bool(x: &Expr) -> (b: bool)
    ensures
        b == boolish(x@),
    decreases x,
{
    match x {
        Expr::Un { op, .. } => matches!(op, UnOp::Not) || bool_typed(x),
        Expr::InstanceOf { .. } => true,
        Expr::Bin { op, l, r, .. } => op.is_boolean() || (matches!(
            op,
            BinOp::And | BinOp::Or | BinOp::Xor
        ) && computes_bool(l) && computes_bool(r)),
        _ => bool_typed(x),
    }
}

/// Folds a binary operation.
fn fold_bin(op: BinOp, l: Expr, r: Expr, ty: Option<TypeRef>) -> (x: Expr)
    ensures
        x@ == bin_folded(op, l@, r@, crate::types::opt_type(ty)),
{
    if matches!(op, BinOp::Eq | BinOp::Ne) && is_int(&r, 0)
        && (bool_typed(&l) || computes_bool(&l)) {
        return if matches!(op, BinOp::Eq) {
            Expr::Un { op: UnOp::Not, e: Box::new(l) }
        } else {
            l
        };
    }
    let ty = if matches!(op, BinOp::And | BinOp::Or | BinOp::Xor) && computes_bool(&l)
        && computes_bool(&r) {
        None
    } else {
        ty
    };
    Expr::Bin { op, l: Box::new(l), r: Box::new(r), ty }
}

/// A double negation goes.
pub open spec fn un_folded(op: UnOp, e: ExprV) -> ExprV {
    match e {
        ExprV::Un { op: inner, e: x } => if op is Not && inner is Not {
            *x
        } else {
            ExprV::Un { op, e: Box::new(e) }
        },
        _ => ExprV::Un { op, e: Box::new(e) },
    }
}

/// Folds a unary operation.
fn fold_un(op: UnOp, e: Expr) -> (r: Expr)
    ensures
        r@ == un_folded(op, e@),
{
    match e {
        Expr::Un { op: UnOp::Not, e: x } => {
            if matches!(op, UnOp::Not) {
                *x
            } else {
                Expr::Un { op, e: Box::new(Expr::Un { op: UnOp::Not, e: x }) }
            }
        },
        other => Expr::Un { op, e: Box::new(other) },
    }
}

/// Parameter `i` is a number.
pub open spec fn numeric_param(types: Seq<JTypeV>, i: int) -> bool {
    0 <= i < types.len() && is_number(types[i])
}

/// The arguments of a call in boolean form, those for number parameters in a
/// numeric context.
pub open spec fn args_booleanized(args: Seq<ExprV>, types: Seq<JTypeV>, num: bool) -> Seq<ExprV>
    decreases args,
{
    Seq::new(
        args.len(),
        |i: int|
            if 0 <= i < args.len() {
                booleanized(args[i], num || numeric_param(types, i))
            } else {
                arbitrary()
            },
    )
}

/// `e` with conditions computed as 0 and 1 in boolean form; `num` where `e` stands
/// in a numeric context.
pub open spec fn booleanized(e: ExprV, num: bool) -> ExprV
    decreases e,
{
    match e {
        ExprV::New { cls, ty, args, raw } => ExprV::New {
            cls,
            ty,
            args: booleanized_exprs(args, num),
            raw,
        },
        ExprV::NewArray { elem, dims, trailing_dims, init } => ExprV::NewArray {
            elem,
            dims: booleanized_exprs(dims, true),
            trailing_dims,
            init: booleanized_oexprs(init, num),
        },
        ExprV::Field { owner, cls, name, ty, is_static } => ExprV::Field {
            owner: booleanized_opt(owner, num),
            cls,
            name,
            ty,
            is_static,
        },
        ExprV::Method {
            owner,
            cls,
            name,
            desc,
            args,
            is_static,
            is_interface,
            is_special,
            is_super,
            is_dynamic,
            type_args,
        } => ExprV::Method {
            owner,
            cls,
            name,
            desc,
            args: args_booleanized(args, desc.args, num),
            is_static,
            is_interface,
            is_special,
            is_super,
            is_dynamic,
            type_args,
        },
        ExprV::ArrayIndex { array, index } => ExprV::ArrayIndex {
            array: Box::new(booleanized(*array, num)),
            index: Box::new(booleanized(*index, true)),
        },
        ExprV::Cast { ty, e } => ExprV::Cast {
            ty,
            e: Box::new(booleanized(*e, num || is_number(erase(ty)))),
        },
        ExprV::InstanceOf { e, ty } => ExprV::InstanceOf { e: Box::new(booleanized(*e, num)), ty },
        ExprV::Un { op, e } => un_folded(op, booleanized(*e, num || !(op is Not))),
        ExprV::Bin { op, l, r, ty } => {
            let side = num || numeric_operands(op, *l, *r);
            bin_folded(op, booleanized(*l, side), booleanized(*r, side), ty)
        },
        ExprV::Cond { c, t, f } => {
            let branch = num || numeric_sibling(*t) || numeric_sibling(*f);
            cond_folded(booleanized(*c, num), booleanized(*t, branch), booleanized(*f, branch), num)
        },
        ExprV::Assign { target, op, value } => ExprV::Assign {
            target: Box::new(booleanized(*target, num)),
            op,
            value: Box::new(booleanized(*value, num)),
        },
        ExprV::StringConcat(parts) => ExprV::StringConcat(booleanized_parts(parts, num)),
        ExprV::AnonNew { cls, base, args, body } => ExprV::AnonNew {
            cls,
            base,
            args: booleanized_exprs(args, num),
            body,
        },
        ExprV::NewMultiArray { ty, dims } => ExprV::NewMultiArray {
            ty,
            dims: booleanized_exprs(dims, true),
        },
        ExprV::PreIncDec { e, delta, wide } => ExprV::PreIncDec {
            e: Box::new(booleanized(*e, num)),
            delta,
            wide,
        },
        ExprV::PostIncDec { e, delta, wide } => ExprV::PostIncDec {
            e: Box::new(booleanized(*e, num)),
            delta,
            wide,
        },
        _ => e,
    }
}

/// [`booleanized`] where there is a value.
pub open spec fn booleanized_opt(o: Option<Box<ExprV>>, num: bool) -> Option<Box<ExprV>>
    decreases o,
{
    match o {
        Some(x) => Some(Box::new(booleanized(*x, num))),
        None => None,
    }
}

/// [`booleanized`] where there is a value.
pub open spec fn booleanized_oexprs(o: Option<Seq<ExprV>>, num: bool) -> Option<Seq<ExprV>>
    decreases o,
{
    match o {
        Some(x) => Some(booleanized_exprs(x, num)),
        None => None,
    }
}

/// [`booleanized`] over a list.
pub open spec fn booleanized_exprs(v: Seq<ExprV>, num: bool) -> Seq<ExprV>
    decreases v,
{
    Seq::new(v.len(), |i: int| if 0 <= i < v.len() { booleanized(v[i], num) } else { arbitrary() })
}

/// [`booleanized`] inside a concatenation piece.
pub open spec fn booleanized_part(p: ConcatPartV, num: bool) -> ConcatPartV
    decreases p,
{
    match p {
        ConcatPartV::Str(e) => ConcatPartV::Str(booleanized(e, num)),
        ConcatPartV::Const(_) => p,
    }
}

/// [`booleanized`] over a list.
pub open spec fn booleanized_parts(v: Seq<ConcatPartV>, num: bool) -> Seq<ConcatPartV>
    decreases v,
{
    Seq::new(
        v.len(),
        |i: int| if 0 <= i < v.len() { booleanized_part(v[i], num) } else { arbitrary() },
    )
}

/// [`booleanized`] where there is a value.
pub open spec fn booleanized_oexpr(o: Option<ExprV>, num: bool) -> Option<ExprV>
    decreases o,
{
    match o {
        Some(x) => Some(booleanized(x, num)),
        None => None,
    }
}

/// Turns conditions computed as 0 and 1 in `e` into boolean form; `num` where `e`
/// stands in a numeric context.
pub fn booleanize_deep(e: &mut Expr, num: bool)
    ensures
        final(e)@ == booleanized(old(e)@, num),
    decreases *old(e),
{
    match e {
        Expr::New { args, .. } => { booleanize_deep_exprs(args, num); },
        Expr::NewArray { dims, init, .. } => {
            booleanize_deep_exprs(dims, true);
            booleanize_deep_oexprs(init, num);
        },
        Expr::Field { owner, .. } => { booleanize_deep_opt(owner, num); },
        Expr::Method { desc, args, .. } => booleanize_args(args, &desc.args, num),
        Expr::ArrayIndex { array, index } => {
            booleanize_deep(array, num);
            booleanize_deep(index, true);
        },
        Expr::Cast { ty, e: x } => {
            let side = num || number(&ty.erased());
            booleanize_deep(x, side);
        },
        Expr::InstanceOf { e, .. } => { booleanize_deep(e, num); },
        Expr::Un { op, e: inner } => {
            let side = num || !matches!(*op, UnOp::Not);
            booleanize_deep(inner, side);
            let x = fold_un(*op, take_expr(inner));
            *e = x;
        },
        Expr::Bin { op, l, r, ty } => {
            let side = num || operands_numeric(*op, l, r);
            booleanize_deep(l, side);
            booleanize_deep(r, side);
            let mut kept: Option<TypeRef> = None;
            core::mem::swap(ty, &mut kept);
            let x = fold_bin(*op, take_expr(l), take_expr(r), kept);
            *e = x;
        },
        Expr::Cond { c, t, f } => {
            let branch = num || sibling_numeric(t) || sibling_numeric(f);
            booleanize_deep(c, num);
            booleanize_deep(t, branch);
            booleanize_deep(f, branch);
            let x = fold_cond(take_expr(c), take_expr(t), take_expr(f), num);
            *e = x;
        },
        Expr::Assign { target, value, .. } => {
            booleanize_deep(target, num);
            booleanize_deep(value, num);
        },
        Expr::StringConcat(parts) => { booleanize_deep_parts(parts, num); },
        Expr::AnonNew { args, .. } => { booleanize_deep_exprs(args, num); },
        Expr::NewMultiArray { dims, .. } => { booleanize_deep_exprs(dims, true); },
        Expr::PreIncDec { e, .. } => { booleanize_deep(e, num); },
        Expr::PostIncDec { e, .. } => { booleanize_deep(e, num); },
        _ => {},
    }
}

/// `booleanize_deep` where there is a value.
pub fn booleanize_deep_opt(o: &mut Option<Box<Expr>>, num: bool)
    ensures
        opt_box(*final(o)) == booleanized_opt(opt_box(*old(o)), num),
    decreases *old(o),
{
    if let Some(x) = o {
        booleanize_deep(x, num);
    }
}

/// `booleanize_deep` where there is a value.
pub fn booleanize_deep_oexprs(o: &mut Option<Vec<Expr>>, num: bool)
    ensures
        opt_exprs(*final(o)) == booleanized_oexprs(opt_exprs(*old(o)), num),
    decreases *old(o),
{
    if let Some(x) = o {
        booleanize_deep_exprs(x, num);
    }
}

/// `booleanize_deep` over a list.
#[verifier::loop_isolation(false)]
pub fn booleanize_deep_exprs(v: &mut Vec<Expr>, num: bool)
    ensures
        exprs(final(v)@) == booleanized_exprs(exprs(old(v)@), num),
    decreases *old(v),
{
    let mut i: usize = 0;
    while i < v.len()
        invariant
            i <= v.len(),
            v.len() == old(v).len(),
            forall|j: int| 0 <= j < i ==> (#[trigger] v@[j])@ == booleanized(old(v)@[j]@, num),
            forall|j: int| i <= j < v.len() ==> #[trigger] v@[j] == old(v)@[j],
        decreases v.len() - i,
    {
        assert(decreases_to!(*old(v) => v@[i as int]));
        booleanize_deep(&mut v[i], num);
        i += 1;
    }
    assert(exprs(v@) =~= booleanized_exprs(exprs(old(v)@), num));
}

/// `booleanize_deep` inside a concatenation piece.
pub fn booleanize_deep_part(p: &mut ConcatPart, num: bool)
    ensures
        final(p)@ == booleanized_part(old(p)@, num),
    decreases *old(p),
{
    match p {
        ConcatPart::Str(e) => booleanize_deep(e, num),
        ConcatPart::Const(_) => {},
    }
}

/// `booleanize_deep` over a list.
#[verifier::loop_isolation(false)]
pub fn booleanize_deep_parts(v: &mut Vec<ConcatPart>, num: bool)
    ensures
        concat_parts(final(v)@) == booleanized_parts(concat_parts(old(v)@), num),
    decreases *old(v),
{
    let mut i: usize = 0;
    while i < v.len()
        invariant
            i <= v.len(),
            v.len() == old(v).len(),
            forall|j: int| 0 <= j < i ==> (#[trigger] v@[j])@ == booleanized_part(old(v)@[j]@, num),
            forall|j: int| i <= j < v.len() ==> #[trigger] v@[j] == old(v)@[j],
        decreases v.len() - i,
    {
        assert(decreases_to!(*old(v) => v@[i as int]));
        booleanize_deep_part(&mut v[i], num);
        i += 1;
    }
    assert(concat_parts(v@) =~= booleanized_parts(concat_parts(old(v)@), num));
}

/// `booleanize_deep` where there is a value.
pub fn booleanize_deep_oexpr(o: &mut Option<Expr>, num: bool)
    ensures
        opt_expr(*final(o)) == booleanized_oexpr(opt_expr(*old(o)), num),
    decreases *old(o),
{
    if let Some(x) = o {
        booleanize_deep(x, num);
    }
}

/// Turns the arguments of a call into boolean form.
#[verifier::loop_isolation(false)]
fn booleanize_args(args: &mut Vec<Expr>, types: &Vec<JType>, num: bool)
    ensures
        exprs(final(args)@) == args_booleanized(exprs(old(args)@), java_types(types@), num),
    decreases *old(args),
{
    let ghost all = exprs(args@);
    let ghost ts = java_types(types@);
    let mut i: usize = 0;
    while i < args.len()
        invariant
            i <= args.len(),
            args.len() == old(args).len(),
            forall|j: int|
                0 <= j < i ==> (#[trigger] args@[j])@ == booleanized(
                    all[j],
                    num || numeric_param(ts, j),
                ),
            forall|j: int| i <= j < args.len() ==> #[trigger] args@[j] == old(args)@[j],
        decreases args.len() - i,
    {
        assert(decreases_to!(*old(args) => args@[i as int]));
        assert(all[i as int] == args@[i as int]@);
        let numeric = i < types.len() && number(&types[i]);
        booleanize_deep(&mut args[i], num || numeric);
        i += 1;
    }
    assert(exprs(args@) =~= args_booleanized(all, ts, num));
}

/// The constant `n`, cast where the method returns `byte` or `short`.
pub open spec fn return_bit(n: i32, ret_ty: JTypeV) -> ExprV {
    if ret_ty is Byte || ret_ty is Short {
        cast_to(ret_ty, int_value(n))
    } else {
        int_value(n)
    }
}

/// A returned value in boolean form; as a number where the method returns one.
pub open spec fn return_booleanized(e: ExprV, numeric_ret: bool, ret_ty: JTypeV) -> ExprV {
    let b = booleanized(e, false);
    if numeric_ret && typed_bool(b) {
        ExprV::Cond {
            c: Box::new(b),
            t: Box::new(return_bit(1, ret_ty)),
            f: Box::new(return_bit(0, ret_ty)),
        }
    } else {
        b
    }
}

/// [`return_booleanized`] where there is a value.
pub open spec fn opt_return_booleanized(
    o: Option<ExprV>,
    numeric_ret: bool,
    ret_ty: JTypeV,
) -> Option<
    ExprV,
> {
    match o {
        Some(e) => Some(return_booleanized(e, numeric_ret, ret_ty)),
        None => None,
    }
}

/// The constant `n`, cast where the method returns `byte` or `short`.
fn make_return_bit(n: i32, ret_ty: &JType) -> (r: Expr)
    ensures
        r@ == return_bit(n, ret_ty@),
{
    match ret_ty {
        JType::Byte | JType::Short => Expr::Cast {
            ty: TypeRef::J(ret_ty.clone()),
            e: Box::new(make_int(n)),
        },
        _ => make_int(n),
    }
}

/// Turns a returned value into boolean form.
fn booleanize_return(o: &mut Option<Expr>, numeric_ret: bool, ret_ty: &JType)
    ensures
        opt_expr(*final(o)) == opt_return_booleanized(opt_expr(*old(o)), numeric_ret, ret_ty@),
{
    if let Some(e) = o {
        booleanize_deep(e, false);
        if numeric_ret && bool_typed(e) {
            let c = take_expr(e);
            *e = Expr::Cond {
                c: Box::new(c),
                t: Box::new(make_return_bit(1, ret_ty)),
                f: Box::new(make_return_bit(0, ret_ty)),
            };
        }
    }
}

/// `s` with conditions computed as 0 and 1 in boolean form.
pub open spec fn stmt_booleanized(s: StmtV, numeric_ret: bool, ret_ty: JTypeV) -> StmtV
    decreases s,
{
    match s {
        StmtV::Block(items) => StmtV::Block(stmt_booleanized_seq(items, numeric_ret, ret_ty)),
        StmtV::ExprStmt(e) => StmtV::ExprStmt(booleanized(e, false)),
        StmtV::LocalDef { var, init, is_final, force_type } => StmtV::LocalDef {
            var,
            init: booleanized_oexpr(init, false),
            is_final,
            force_type,
        },
        StmtV::Return(e) => StmtV::Return(opt_return_booleanized(e, numeric_ret, ret_ty)),
        StmtV::Throw(e) => StmtV::Throw(booleanized(e, false)),
        StmtV::If { cond, then_stmt, else_stmt } => StmtV::If {
            cond: booleanized(cond, false),
            then_stmt: Box::new(stmt_booleanized(*then_stmt, numeric_ret, ret_ty)),
            else_stmt: stmt_booleanized_opt(else_stmt, numeric_ret, ret_ty),
        },
        StmtV::While { cond, body } => StmtV::While {
            cond: booleanized(cond, false),
            body: Box::new(stmt_booleanized(*body, numeric_ret, ret_ty)),
        },
        StmtV::DoWhile { body, cond } => StmtV::DoWhile {
            body: Box::new(stmt_booleanized(*body, numeric_ret, ret_ty)),
            cond: booleanized(cond, false),
        },
        StmtV::For { init, cond, update, body } => StmtV::For {
            init: stmt_booleanized_seq(init, numeric_ret, ret_ty),
            cond: booleanized_oexpr(cond, false),
            update: booleanized_exprs(update, false),
            body: Box::new(stmt_booleanized(*body, numeric_ret, ret_ty)),
        },
        StmtV::Switch { selector, cases, default, on_string } => StmtV::Switch {
            selector: booleanized(selector, false),
            cases: stmt_booleanized_cases(cases, numeric_ret, ret_ty),
            default: stmt_booleanized_opt(default, numeric_ret, ret_ty),
            on_string,
        },
        StmtV::Try { body, catches, finally } => StmtV::Try {
            body: Box::new(stmt_booleanized(*body, numeric_ret, ret_ty)),
            catches: stmt_booleanized_catches(catches, numeric_ret, ret_ty),
            finally: stmt_booleanized_opt(finally, numeric_ret, ret_ty),
        },
        StmtV::TryWithResources { resources, body, catches, finally } => StmtV::TryWithResources {
            resources: stmt_booleanized_seq(resources, numeric_ret, ret_ty),
            body: Box::new(stmt_booleanized(*body, numeric_ret, ret_ty)),
            catches: stmt_booleanized_catches(catches, numeric_ret, ret_ty),
            finally: stmt_booleanized_opt(finally, numeric_ret, ret_ty),
        },
        StmtV::Assert { cond, msg } => StmtV::Assert {
            cond: booleanized(cond, false),
            msg: booleanized_oexpr(msg, false),
        },
        StmtV::Synchronized { lock, body } => StmtV::Synchronized {
            lock,
            body: Box::new(stmt_booleanized(*body, numeric_ret, ret_ty)),
        },
        StmtV::Label(n) => StmtV::Label(n),
        StmtV::Goto(n) => StmtV::Goto(n),
        StmtV::ClassDecl { name, header, body } => StmtV::ClassDecl { name, header, body },
        StmtV::Labeled { label, body } => StmtV::Labeled {
            label,
            body: Box::new(stmt_booleanized(*body, numeric_ret, ret_ty)),
        },
        StmtV::Break(label) => StmtV::Break(label),
        StmtV::Continue(label) => StmtV::Continue(label),
        StmtV::Comment(text) => StmtV::Comment(text),
        StmtV::ForEach { var, iterable, is_array, body } => StmtV::ForEach {
            var,
            iterable: booleanized(iterable, false),
            is_array,
            body: Box::new(stmt_booleanized(*body, numeric_ret, ret_ty)),
        },
        StmtV::TernaryValue { e } => StmtV::TernaryValue { e: booleanized(e, false) },
        StmtV::MonitorEnter(e) => StmtV::MonitorEnter(booleanized(e, false)),
        StmtV::MonitorExit(e) => StmtV::MonitorExit(booleanized(e, false)),
        _ => s,
    }
}

/// [`stmt_booleanized`] where there is a value.
pub open spec fn stmt_booleanized_opt(
    o: Option<Box<StmtV>>,
    numeric_ret: bool,
    ret_ty: JTypeV,
) -> Option<Box<StmtV>>
    decreases o,
{
    match o {
        Some(x) => Some(Box::new(stmt_booleanized(*x, numeric_ret, ret_ty))),
        None => None,
    }
}

/// [`stmt_booleanized`] over a list.
pub open spec fn stmt_booleanized_seq(
    v: Seq<StmtV>,
    numeric_ret: bool,
    ret_ty: JTypeV,
) -> Seq<StmtV>
    decreases v,
{
    Seq::new(
        v.len(),
        |i: int| if 0 <= i < v.len() { stmt_booleanized(v[i], numeric_ret, ret_ty) } else {
            arbitrary()
        },
    )
}

/// [`stmt_booleanized`] inside a switch arm.
pub open spec fn stmt_booleanized_case(
    c: CaseGroupV,
    numeric_ret: bool,
    ret_ty: JTypeV,
) -> CaseGroupV
    decreases c,
{
    CaseGroupV {
        guard: booleanized_oexpr(c.guard, false),
        body: stmt_booleanized_seq(c.body, numeric_ret, ret_ty),
        ..c
    }
}

/// [`stmt_booleanized`] over a list.
pub open spec fn stmt_booleanized_cases(
    v: Seq<CaseGroupV>,
    numeric_ret: bool,
    ret_ty: JTypeV,
) -> Seq<CaseGroupV>
    decreases v,
{
    Seq::new(
        v.len(),
        |i: int| if 0 <= i < v.len() { stmt_booleanized_case(v[i], numeric_ret, ret_ty) } else {
            arbitrary()
        },
    )
}

/// [`stmt_booleanized`] inside a catch clause.
pub open spec fn stmt_booleanized_catch(c: CatchV, numeric_ret: bool, ret_ty: JTypeV) -> CatchV
    decreases c,
{
    CatchV { body: Box::new(stmt_booleanized(*c.body, numeric_ret, ret_ty)), ..c }
}

/// [`stmt_booleanized`] over a list.
pub open spec fn stmt_booleanized_catches(
    v: Seq<CatchV>,
    numeric_ret: bool,
    ret_ty: JTypeV,
) -> Seq<CatchV>
    decreases v,
{
    Seq::new(
        v.len(),
        |i: int| if 0 <= i < v.len() { stmt_booleanized_catch(v[i], numeric_ret, ret_ty) } else {
            arbitrary()
        },
    )
}

/// Turns conditions computed as 0 and 1 in `s` into boolean form. `numeric_ret` where
/// the method returns a number, of type `ret_ty`.
pub fn booleanize_deep_stmt_r(s: &mut Stmt, numeric_ret: bool, ret_ty: &JType)
    ensures
        final(s)@ == stmt_booleanized(old(s)@, numeric_ret, ret_ty@),
    decreases *old(s),
{
    match s {
        Stmt::Block(items) => { booleanize_deep_stmt_r_vec(items, numeric_ret, ret_ty); },
        Stmt::ExprStmt(e) => { booleanize_deep(e, false); },
        Stmt::LocalDef { init, .. } => { booleanize_deep_oexpr(init, false); },
        Stmt::Return(e) => booleanize_return(e, numeric_ret, ret_ty),
        Stmt::Throw(e) => { booleanize_deep(e, false); },
        Stmt::If { cond, then_stmt, else_stmt } => {
            booleanize_deep(cond, false);
            booleanize_deep_stmt_r(then_stmt, numeric_ret, ret_ty);
            booleanize_deep_stmt_r_opt(else_stmt, numeric_ret, ret_ty);
        },
        Stmt::While { cond, body } => {
            booleanize_deep(cond, false);
            booleanize_deep_stmt_r(body, numeric_ret, ret_ty);
        },
        Stmt::DoWhile { body, cond } => {
            booleanize_deep_stmt_r(body, numeric_ret, ret_ty);
            booleanize_deep(cond, false);
        },
        Stmt::For { init, cond, update, body } => {
            booleanize_deep_stmt_r_vec(init, numeric_ret, ret_ty);
            booleanize_deep_oexpr(cond, false);
            booleanize_deep_exprs(update, false);
            booleanize_deep_stmt_r(body, numeric_ret, ret_ty);
        },
        Stmt::Switch { selector, cases, default, .. } => {
            booleanize_deep(selector, false);
            booleanize_deep_stmt_r_cases(cases, numeric_ret, ret_ty);
            booleanize_deep_stmt_r_opt(default, numeric_ret, ret_ty);
        },
        Stmt::Try { body, catches, finally } => {
            booleanize_deep_stmt_r(body, numeric_ret, ret_ty);
            booleanize_deep_stmt_r_catches(catches, numeric_ret, ret_ty);
            booleanize_deep_stmt_r_opt(finally, numeric_ret, ret_ty);
        },
        Stmt::TryWithResources { resources, body, catches, finally } => {
            booleanize_deep_stmt_r_vec(resources, numeric_ret, ret_ty);
            booleanize_deep_stmt_r(body, numeric_ret, ret_ty);
            booleanize_deep_stmt_r_catches(catches, numeric_ret, ret_ty);
            booleanize_deep_stmt_r_opt(finally, numeric_ret, ret_ty);
        },
        Stmt::Assert { cond, msg } => {
            booleanize_deep(cond, false);
            booleanize_deep_oexpr(msg, false);
        },
        Stmt::Synchronized { body, .. } => { booleanize_deep_stmt_r(body, numeric_ret, ret_ty); },
        Stmt::Label(_) => {  },
        Stmt::Goto(_) => {  },
        Stmt::ClassDecl { .. } => {  },
        Stmt::Labeled { body, .. } => { booleanize_deep_stmt_r(body, numeric_ret, ret_ty); },
        Stmt::Break(_) => {  },
        Stmt::Continue(_) => {  },
        Stmt::Comment(_) => {  },
        Stmt::ForEach { iterable, body, .. } => {
            booleanize_deep(iterable, false);
            booleanize_deep_stmt_r(body, numeric_ret, ret_ty);
        },
        Stmt::TernaryValue { e } => { booleanize_deep(e, false); },
        Stmt::MonitorEnter(e) => { booleanize_deep(e, false); },
        Stmt::MonitorExit(e) => { booleanize_deep(e, false); },
        _ => {},
    }
}

/// `booleanize_deep_stmt_r` where there is a value.
pub fn booleanize_deep_stmt_r_opt(o: &mut Option<Box<Stmt>>, numeric_ret: bool, ret_ty: &JType)
    ensures
        opt_stmt(*final(o)) == stmt_booleanized_opt(opt_stmt(*old(o)), numeric_ret, ret_ty@),
    decreases *old(o),
{
    if let Some(x) = o {
        booleanize_deep_stmt_r(x, numeric_ret, ret_ty);
    }
}

/// `booleanize_deep_stmt_r` over a list.
#[verifier::loop_isolation(false)]
pub fn booleanize_deep_stmt_r_vec(v: &mut Vec<Stmt>, numeric_ret: bool, ret_ty: &JType)
    ensures
        stmts(final(v)@) == stmt_booleanized_seq(stmts(old(v)@), numeric_ret, ret_ty@),
    decreases *old(v),
{
    let mut i: usize = 0;
    while i < v.len()
        invariant
            i <= v.len(),
            v.len() == old(v).len(),
            forall|j: int|
                0 <= j < i
                    ==> (#[trigger] v@[j])@ == stmt_booleanized(old(v)@[j]@, numeric_ret, ret_ty@),
            forall|j: int| i <= j < v.len() ==> #[trigger] v@[j] == old(v)@[j],
        decreases v.len() - i,
    {
        assert(decreases_to!(*old(v) => v@[i as int]));
        booleanize_deep_stmt_r(&mut v[i], numeric_ret, ret_ty);
        i += 1;
    }
    assert(stmts(v@) =~= stmt_booleanized_seq(stmts(old(v)@), numeric_ret, ret_ty@));
}

/// `booleanize_deep_stmt_r` inside a switch arm.
pub fn booleanize_deep_stmt_r_case(c: &mut CaseGroup, numeric_ret: bool, ret_ty: &JType)
    ensures
        final(c)@ == stmt_booleanized_case(old(c)@, numeric_ret, ret_ty@),
    decreases *old(c),
{
    booleanize_deep_oexpr(&mut c.guard, false);
    booleanize_deep_stmt_r_vec(&mut c.body, numeric_ret, ret_ty);
}

/// `booleanize_deep_stmt_r` over a list.
#[verifier::loop_isolation(false)]
pub fn booleanize_deep_stmt_r_cases(v: &mut Vec<CaseGroup>, numeric_ret: bool, ret_ty: &JType)
    ensures
        case_groups(final(v)@) == stmt_booleanized_cases(
            case_groups(old(v)@),
            numeric_ret,
            ret_ty@,
        ),
    decreases *old(v),
{
    let mut i: usize = 0;
    while i < v.len()
        invariant
            i <= v.len(),
            v.len() == old(v).len(),
            forall|j: int|
                0 <= j < i
                    ==> (#[trigger] v@[j])@ == stmt_booleanized_case(
                        old(v)@[j]@,
                        numeric_ret,
                        ret_ty@,
                    ),
            forall|j: int| i <= j < v.len() ==> #[trigger] v@[j] == old(v)@[j],
        decreases v.len() - i,
    {
        assert(decreases_to!(*old(v) => v@[i as int]));
        booleanize_deep_stmt_r_case(&mut v[i], numeric_ret, ret_ty);
        i += 1;
    }
    assert(case_groups(v@) =~= stmt_booleanized_cases(case_groups(old(v)@), numeric_ret, ret_ty@));
}

/// `booleanize_deep_stmt_r` inside a catch clause.
pub fn booleanize_deep_stmt_r_catch(c: &mut Catch, numeric_ret: bool, ret_ty: &JType)
    ensures
        final(c)@ == stmt_booleanized_catch(old(c)@, numeric_ret, ret_ty@),
    decreases *old(c),
{
    booleanize_deep_stmt_r(&mut c.body, numeric_ret, ret_ty);
}

/// `booleanize_deep_stmt_r` over a list.
#[verifier::loop_isolation(false)]
pub fn booleanize_deep_stmt_r_catches(v: &mut Vec<Catch>, numeric_ret: bool, ret_ty: &JType)
    ensures
        catch_list(final(v)@) == stmt_booleanized_catches(
            catch_list(old(v)@),
            numeric_ret,
            ret_ty@,
        ),
    decreases *old(v),
{
    let mut i: usize = 0;
    while i < v.len()
        invariant
            i <= v.len(),
            v.len() == old(v).len(),
            forall|j: int|
                0 <= j < i
                    ==> (#[trigger] v@[j])@ == stmt_booleanized_catch(
                        old(v)@[j]@,
                        numeric_ret,
                        ret_ty@,
                    ),
            forall|j: int| i <= j < v.len() ==> #[trigger] v@[j] == old(v)@[j],
        decreases v.len() - i,
    {
        assert(decreases_to!(*old(v) => v@[i as int]));
        booleanize_deep_stmt_r_catch(&mut v[i], numeric_ret, ret_ty);
        i += 1;
    }
    assert(catch_list(v@) =~= stmt_booleanized_catches(catch_list(old(v)@), numeric_ret, ret_ty@));
}

/// Turns conditions computed as 0 and 1 in `s` into boolean form.
pub fn booleanize_deep_stmt(s: &mut Stmt)
    ensures
        final(s)@ == stmt_booleanized(old(s)@, false, JTypeV::Int),
{
    booleanize_deep_stmt_r(s, false, &JType::Int);
}

/// In a numeric context a choice between one and zero stays one; elsewhere it becomes
/// its condition.
pub proof fn law_choice_stays_a_number(c: ExprV, num: bool)
    ensures
        booleanized(as_bit(c), num) == if num {
            as_bit(deep_bool(booleanized(c, true)))
        } else {
            booleanized(c, false)
        },
{
    let one = int_value(1);
    let nil = int_value(0);
    assert(booleanized(one, num) == one);
    assert(booleanized(nil, num) == nil);
    assert(!numeric_sibling(one) && !numeric_sibling(nil));
    assert(booleanized(as_bit(c), num) == cond_folded(
        booleanized(c, num),
        booleanized(one, num),
        booleanized(nil, num),
        num,
    ));
}

/// A choice between one and zero stays one under every unary operator but a negation.
pub proof fn law_sign_keeps_numbers(c: ExprV, op: UnOp, num: bool)
    requires
        !(op is Not),
    ensures
        booleanized(ExprV::Un { op, e: Box::new(as_bit(c)) }, num) == (ExprV::Un {
            op,
            e: Box::new(as_bit(deep_bool(booleanized(c, true)))),
        }),
{
    law_choice_stays_a_number(c, true);
    assert(booleanized(ExprV::Un { op, e: Box::new(as_bit(c)) }, num) == un_folded(
        op,
        booleanized(as_bit(c), true),
    ));
}

} // verus!
