//! What truth values in boolean form mean.
use crate::booleans::{
    args_booleanized, as_bit, bin_folded, booleanized, booleanized_exprs, booleanized_oexprs,
    booleanized_opt, booleanized_part, booleanized_parts, boolish, cond_folded, deep_bool,
    int_value, is_bit_choice, logic, numeric_operands, numeric_param, numeric_sibling, one_bool,
    return_booleanized, typed_bool, un_folded,
};
use crate::ctor_guards::negated;
use crate::expr::{type_of, BinOp, ConcatPartV, ExprV, UnOp};
use crate::meaning::{
    bit, bitwise, is_truth, truth, value, value_part, values, values_list, values_opt, values_parts,
    Valuation,
};
use crate::types::{JTypeV, TypeRefV};
use vstd::prelude::*;

verus! {

/// `w` gives `e` values that go with its types: whatever is of type `boolean`, or becomes so
/// in boolean form, and whatever a condition is asked for, is 0 or 1.
pub open spec fn well_typed(w: Valuation, e: ExprV) -> bool
    decreases e,
{
    &&& forall|num: bool| #[trigger] typed_bool(booleanized(e, num)) ==> is_truth(value(w, e))
    &&& match e {
        ExprV::New { args, .. } => all_typed(w, args),
        ExprV::AnonNew { args, .. } => all_typed(w, args),
        ExprV::NewArray { dims, init, .. } => all_typed(w, dims) && list_typed(w, init),
        ExprV::NewMultiArray { dims, .. } => all_typed(w, dims),
        ExprV::Field { owner, .. } => opt_typed(w, owner),
        ExprV::Method { args, .. } => all_typed(w, args),
        ExprV::ArrayIndex { array, index } => well_typed(w, *array) && well_typed(w, *index),
        ExprV::Cast { e, .. } => well_typed(w, *e),
        ExprV::InstanceOf { e, .. } => well_typed(w, *e),
        ExprV::Un { op, e } => well_typed(w, *e) && (op is Not ==> is_truth(value(w, *e))),
        ExprV::Bin { l, r, .. } => well_typed(w, *l) && well_typed(w, *r),
        ExprV::Cond { c, t, f } => is_truth(value(w, *c)) && well_typed(w, *c) && well_typed(w, *t)
            && well_typed(w, *f),
        ExprV::Assign { target, value, .. } => well_typed(w, *target) && well_typed(w, *value),
        ExprV::PreIncDec { e, .. } => well_typed(w, *e),
        ExprV::PostIncDec { e, .. } => well_typed(w, *e),
        ExprV::StringConcat(parts) => parts_typed(w, parts),
        _ => true,
    }
}

/// [`well_typed`] over a list.
pub open spec fn all_typed(w: Valuation, l: Seq<ExprV>) -> bool
    decreases l,
{
    forall|i: int| 0 <= i < l.len() ==> well_typed(w, #[trigger] l[i])
}

/// [`well_typed`] where there is a list.
pub open spec fn list_typed(w: Valuation, o: Option<Seq<ExprV>>) -> bool
    decreases o,
{
    match o {
        Some(l) => all_typed(w, l),
        None => true,
    }
}

/// [`well_typed`] where there is a value.
pub open spec fn opt_typed(w: Valuation, o: Option<Box<ExprV>>) -> bool
    decreases o,
{
    match o {
        Some(x) => well_typed(w, *x),
        None => true,
    }
}

/// [`well_typed`] inside a concatenation piece.
pub open spec fn part_typed(w: Valuation, p: ConcatPartV) -> bool
    decreases p,
{
    match p {
        ConcatPartV::Str(e) => well_typed(w, e),
        ConcatPartV::Const(_) => true,
    }
}

/// [`well_typed`] over concatenation pieces.
pub open spec fn parts_typed(w: Valuation, l: Seq<ConcatPartV>) -> bool
    decreases l,
{
    forall|i: int| 0 <= i < l.len() ==> part_typed(w, #[trigger] l[i])
}

/// Conditions and what is negated are 0 or 1.
pub open spec fn settled(w: Valuation, e: ExprV) -> bool
    decreases e,
{
    match e {
        ExprV::Cond { c, t, f } => is_truth(value(w, *c)) && settled(w, *c) && settled(w, *t)
            && settled(w, *f),
        ExprV::Un { op, e } => op is Not ==> is_truth(value(w, *e)) && settled(w, *e),
        _ => true,
    }
}

/// The negation of a truth value is the other one.
proof fn lemma_negated(w: Valuation, e: ExprV)
    requires
        settled(w, e),
        is_truth(value(w, e)),
    ensures
        value(w, negated(e)) == 1 - value(w, e),
        settled(w, negated(e)),
{
}

/// A connective is a truth value.
proof fn lemma_logic(w: Valuation, op: BinOp, l: ExprV, r: ExprV)
    requires
        op is LogAnd || op is LogOr,
    ensures
        value(w, logic(op, l, r)) == if op is LogAnd {
            bit(truth(value(w, l)) && truth(value(w, r)))
        } else {
            bit(truth(value(w, l)) || truth(value(w, r)))
        },
        settled(w, logic(op, l, r)),
{
}

/// `e ? 1 : 0` of a truth value is that value.
proof fn lemma_as_bit(w: Valuation, e: ExprV)
    requires
        settled(w, e),
        is_truth(value(w, e)),
    ensures
        value(w, as_bit(e)) == value(w, e),
        settled(w, as_bit(e)),
        !typed_bool(as_bit(e)),
{
    reveal_with_fuel(value, 2);
    reveal_with_fuel(settled, 2);
    reveal_with_fuel(type_of, 2);
}

/// The values of the constants 0 and 1.
proof fn lemma_int_value(w: Valuation, n: i32)
    ensures
        value(w, int_value(n)) == n,
        settled(w, int_value(n)),
{
}

/// A choice between 0 and 1 is a truth value.
proof fn lemma_bit_choice(w: Valuation, e: ExprV)
    requires
        is_bit_choice(e),
    ensures
        is_truth(value(w, e)),
{
    reveal_with_fuel(value, 2);
}

/// A tree of conditionals in boolean form has the value that it had.
proof fn lemma_deep_bool(w: Valuation, e: ExprV)
    requires
        settled(w, e),
    ensures
        value(w, deep_bool(e)) == value(w, e),
        settled(w, deep_bool(e)),
    decreases e,
{
    if let ExprV::Cond { c, t, f } = e {
        let c2 = deep_bool(*c);
        lemma_deep_bool(w, *c);
        lemma_deep_bool(w, *t);
        lemma_deep_bool(w, *f);
        lemma_negated(w, c2);
        lemma_int_value(w, 0);
        lemma_int_value(w, 1);
        if is_bit_choice(*t) {
            lemma_bit_choice(w, *t);
        }
        if is_bit_choice(*f) {
            lemma_bit_choice(w, *f);
        }
        lemma_logic(w, BinOp::LogOr, c2, deep_bool(*f));
        lemma_logic(w, BinOp::LogAnd, negated(c2), deep_bool(*f));
        lemma_logic(w, BinOp::LogOr, negated(c2), deep_bool(*t));
        lemma_logic(w, BinOp::LogAnd, c2, deep_bool(*t));
    }
}

/// A conditional read as a truth value has the value that it had.
proof fn lemma_one_bool(w: Valuation, e: ExprV)
    requires
        settled(w, e),
    ensures
        value(w, one_bool(e)) == value(w, e),
        settled(w, one_bool(e)),
{
    if let ExprV::Cond { c, t, f } = e {
        lemma_negated(w, *c);
        lemma_int_value(w, 0);
        lemma_int_value(w, 1);
    }
}

/// A folded conditional has the value of the branch that is taken.
proof fn lemma_cond_folded(w: Valuation, c: ExprV, t: ExprV, f: ExprV, num: bool)
    requires
        is_truth(value(w, c)),
        settled(w, c),
        settled(w, t),
        settled(w, f),
        typed_bool(t) ==> is_truth(value(w, t)),
        typed_bool(f) ==> is_truth(value(w, f)),
    ensures
        value(w, cond_folded(c, t, f, num)) == if truth(value(w, c)) {
            value(w, t)
        } else {
            value(w, f)
        },
        settled(w, cond_folded(c, t, f, num)),
        boolish(cond_folded(c, t, f, num)) ==> is_truth(value(w, cond_folded(c, t, f, num)))
            || typed_bool(cond_folded(c, t, f, num)),
{
    lemma_int_value(w, 0);
    lemma_int_value(w, 1);
    lemma_deep_bool(w, c);
    lemma_as_bit(w, deep_bool(c));
    lemma_negated(w, deep_bool(c));
    lemma_as_bit(w, negated(deep_bool(c)));
    lemma_negated(w, c);
    lemma_one_bool(w, t);
    lemma_one_bool(w, f);
    if is_bit_choice(t) {
        lemma_bit_choice(w, t);
    }
    if is_bit_choice(f) {
        lemma_bit_choice(w, f);
    }
    let a = logic(BinOp::LogOr, c, one_bool(f));
    let b = logic(BinOp::LogAnd, negated(c), one_bool(f));
    let x = logic(BinOp::LogOr, negated(c), one_bool(t));
    let y = logic(BinOp::LogAnd, c, one_bool(t));
    lemma_logic(w, BinOp::LogOr, c, one_bool(f));
    lemma_logic(w, BinOp::LogAnd, negated(c), one_bool(f));
    lemma_logic(w, BinOp::LogOr, negated(c), one_bool(t));
    lemma_logic(w, BinOp::LogAnd, c, one_bool(t));
    lemma_as_bit(w, a);
    lemma_as_bit(w, b);
    lemma_as_bit(w, x);
    lemma_as_bit(w, y);
}

/// Bit operations on truth values give truth values.
proof fn lemma_bits(op: BinOp, a: int, b: int)
    requires
        is_truth(a),
        is_truth(b),
    ensures
        is_truth(bitwise(op, a, b)),
{
    assert(0i64 & 0i64 == 0 && 0i64 & 1i64 == 0 && 1i64 & 0i64 == 0 && 1i64 & 1i64 == 1)
        by (bit_vector);
    assert(0i64 | 0i64 == 0 && 0i64 | 1i64 == 1 && 1i64 | 0i64 == 1 && 1i64 | 1i64 == 1)
        by (bit_vector);
    assert(0i64 ^ 0i64 == 0 && 0i64 ^ 1i64 == 1 && 1i64 ^ 0i64 == 1 && 1i64 ^ 1i64 == 0)
        by (bit_vector);
}

/// A folded operation has the value of the operation.
proof fn lemma_bin_folded(w: Valuation, op: BinOp, l: ExprV, r: ExprV, ty: Option<TypeRefV>)
    requires
        settled(w, l),
        settled(w, r),
        typed_bool(l) || boolish(l) ==> is_truth(value(w, l)),
        typed_bool(r) || boolish(r) ==> is_truth(value(w, r)),
    ensures
        value(w, bin_folded(op, l, r, ty)) == value(
            w,
            ExprV::Bin { op, l: Box::new(l), r: Box::new(r), ty },
        ),
        settled(w, bin_folded(op, l, r, ty)),
        boolish(bin_folded(op, l, r, ty)) ==> is_truth(value(w, bin_folded(op, l, r, ty))),
{
    lemma_int_value(w, 0);
    if op is And || op is Or || op is Xor {
        if boolish(l) && boolish(r) {
            lemma_bits(op, value(w, l), value(w, r));
        }
    }
}

/// A folded negation has the value of the negation.
proof fn lemma_un_folded(w: Valuation, op: UnOp, e: ExprV)
    requires
        settled(w, e),
        op is Not ==> is_truth(value(w, e)),
    ensures
        value(w, un_folded(op, e)) == value(w, ExprV::Un { op, e: Box::new(e) }),
        settled(w, un_folded(op, e)),
        op is Not ==> is_truth(value(w, un_folded(op, e))),
{
}

/// An expression in boolean form has the value that it had.
#[verifier::spinoff_prover]
#[verifier::rlimit(40)]
proof fn lemma_booleanized(w: Valuation, e: ExprV, num: bool)
    requires
        well_typed(w, e),
    ensures
        value(w, booleanized(e, num)) == value(w, e),
        settled(w, booleanized(e, num)),
        typed_bool(booleanized(e, num)) ==> is_truth(value(w, e)),
        boolish(booleanized(e, num)) ==> is_truth(value(w, e)),
    decreases e,
{
    let r = booleanized(e, num);
    match e {
        ExprV::New { args, .. } => {
            lemma_booleanized_exprs(w, args, num);
        },
        ExprV::AnonNew { args, .. } => {
            lemma_booleanized_exprs(w, args, num);
        },
        ExprV::NewArray { dims, init, .. } => {
            lemma_booleanized_exprs(w, dims, true);
            lemma_booleanized_list(w, init, num);
        },
        ExprV::NewMultiArray { dims, .. } => {
            lemma_booleanized_exprs(w, dims, true);
        },
        ExprV::Field { owner, .. } => {
            lemma_booleanized_opt(w, owner, num);
        },
        ExprV::Method { desc, args, .. } => {
            lemma_booleanized_args(w, args, desc.args, num);
        },
        ExprV::ArrayIndex { array, index } => {
            lemma_booleanized(w, *array, num);
            lemma_booleanized(w, *index, true);
        },
        ExprV::Cast { ty, e: x } => {
            lemma_booleanized(w, *x, num || crate::booleans::is_number(crate::types::erase(ty)));
        },
        ExprV::InstanceOf { e: x, .. } => {
            lemma_booleanized(w, *x, num);
        },
        ExprV::Un { op, e: x } => {
            lemma_booleanized(w, *x, num || !(op is Not));
            lemma_un_folded(w, op, booleanized(*x, num || !(op is Not)));
        },
        ExprV::Bin { op, l, r: right, ty } => {
            let side = num || numeric_operands(op, *l, *right);
            lemma_booleanized(w, *l, side);
            lemma_booleanized(w, *right, side);
            lemma_bin_folded(w, op, booleanized(*l, side), booleanized(*right, side), ty);
        },
        ExprV::Cond { c, t, f } => {
            let branch = num || numeric_sibling(*t) || numeric_sibling(*f);
            lemma_booleanized(w, *c, num);
            lemma_booleanized(w, *t, branch);
            lemma_booleanized(w, *f, branch);
            lemma_cond_folded(
                w,
                booleanized(*c, num),
                booleanized(*t, branch),
                booleanized(*f, branch),
                num,
            );
        },
        ExprV::Assign { target, value, .. } => {
            lemma_booleanized(w, *target, num);
            lemma_booleanized(w, *value, num);
        },
        ExprV::PreIncDec { e: x, .. } => {
            lemma_booleanized(w, *x, num);
        },
        ExprV::PostIncDec { e: x, .. } => {
            lemma_booleanized(w, *x, num);
        },
        ExprV::StringConcat(parts) => {
            lemma_booleanized_parts(w, parts, num);
        },
        _ => {},
    }
    assert(typed_bool(booleanized(e, num)) ==> is_truth(value(w, e)));
}

/// [`lemma_booleanized`] over a list.
proof fn lemma_booleanized_exprs(w: Valuation, v: Seq<ExprV>, num: bool)
    requires
        all_typed(w, v),
    ensures
        values(w, booleanized_exprs(v, num)) == values(w, v),
    decreases v,
{
    assert forall|i: int| 0 <= i < v.len() implies value(w, booleanized_exprs(v, num)[i]) == value(
        w,
        #[trigger] v[i],
    ) by {
        lemma_booleanized(w, v[i], num);
    }
    assert(values(w, booleanized_exprs(v, num)) =~= values(w, v));
}

/// [`lemma_booleanized`] over the arguments of a call.
proof fn lemma_booleanized_args(w: Valuation, v: Seq<ExprV>, types: Seq<JTypeV>, num: bool)
    requires
        all_typed(w, v),
    ensures
        values(w, args_booleanized(v, types, num)) == values(w, v),
    decreases v,
{
    assert forall|i: int| 0 <= i < v.len() implies value(w, args_booleanized(v, types, num)[i])
        == value(w, #[trigger] v[i]) by {
        lemma_booleanized(w, v[i], num || numeric_param(types, i));
    }
    assert(values(w, args_booleanized(v, types, num)) =~= values(w, v));
}

/// [`lemma_booleanized`] where there is a list.
proof fn lemma_booleanized_list(w: Valuation, o: Option<Seq<ExprV>>, num: bool)
    requires
        list_typed(w, o),
    ensures
        values_list(w, booleanized_oexprs(o, num)) == values_list(w, o),
    decreases o,
{
    if let Some(v) = o {
        lemma_booleanized_exprs(w, v, num);
    }
}

/// [`lemma_booleanized`] where there is a value.
proof fn lemma_booleanized_opt(w: Valuation, o: Option<Box<ExprV>>, num: bool)
    requires
        opt_typed(w, o),
    ensures
        values_opt(w, booleanized_opt(o, num)) == values_opt(w, o),
    decreases o,
{
    if let Some(x) = o {
        lemma_booleanized(w, *x, num);
    }
}

/// [`lemma_booleanized`] over concatenation pieces.
proof fn lemma_booleanized_parts(w: Valuation, v: Seq<ConcatPartV>, num: bool)
    requires
        parts_typed(w, v),
    ensures
        values_parts(w, booleanized_parts(v, num)) == values_parts(w, v),
    decreases v,
{
    assert forall|i: int| 0 <= i < v.len() implies value_part(w, booleanized_parts(v, num)[i])
        == value_part(w, #[trigger] v[i]) by {
        assert(part_typed(w, v[i]));
        if let ConcatPartV::Str(e) = v[i] {
            lemma_booleanized(w, e, num);
        }
        assert(booleanized_parts(v, num)[i] == booleanized_part(v[i], num));
    }
    assert(values_parts(w, booleanized_parts(v, num)) =~= values_parts(w, v));
}

/// Boolean form changes no value: whatever the variables hold, an expression evaluates to
/// what it evaluated to before, truth values read as 0 and 1.
pub proof fn law_boolean_form_keeps_values(w: Valuation, e: ExprV, num: bool)
    requires
        well_typed(w, e),
    ensures
        value(w, booleanized(e, num)) == value(w, e),
{
    lemma_booleanized(w, e, num);
}

/// So does the form that a single value takes where a boolean is meant.
pub proof fn law_boolean_value_is_kept(w: Valuation, e: ExprV)
    requires
        match e {
            ExprV::Cond { c, .. } => is_truth(value(w, *c)),
            ExprV::Bin { l, .. } => typed_bool(*l) ==> is_truth(value(w, *l)),
            _ => true,
        },
    ensures
        value(w, crate::values::booleanized(e)) == value(w, e),
{
    lemma_int_value(w, 0);
    lemma_int_value(w, 1);
}

/// A returned value in boolean form is what was returned, also where a number is returned
/// and the truth value is made one again.
pub proof fn law_boolean_return_is_kept(
    w: Valuation,
    e: ExprV,
    numeric_ret: bool,
    ret_ty: JTypeV,
)
    requires
        well_typed(w, e),
        (w.cast)(ret_ty, 0) == 0,
        (w.cast)(ret_ty, 1) == 1,
    ensures
        value(w, return_booleanized(e, numeric_ret, ret_ty)) == value(w, e),
{
    reveal_with_fuel(value, 3);
    lemma_booleanized(w, e, false);
}

} // verus!
