use jcdc::arrays::{array_key, materialize_arrays, PendingArray};
use jcdc::expr::{expr_eq, BinOp, ConcatPart, ConstVal, Expr, UnOp};
use jcdc::floats::{negate_double, negate_single, to_double, to_single, widen};
use jcdc::infer::join_types;
use jcdc::stmt::Stmt;
use jcdc::types::{JType, TypeRef};
use jcdc::values::{
    booleanize, class_name_to_type, collect_append_chain, convert, fold_const_binop,
    has_side_effects, int_const, mk_assign, neg, parse_concat_recipe,
};

fn number(i: i32) -> Expr {
    Expr::Const(ConstVal::Int(i))
}

fn local(var: u32) -> Expr {
    Expr::Local { var, ty: TypeRef::J(JType::Int) }
}

fn object(name: &str) -> JType {
    JType::Object(name.to_string())
}

#[test]
fn int_constants() {
    assert_eq!(int_const(7), number(7));
    assert_eq!(int_const(i32::MIN), number(i32::MIN));
}

#[test]
fn assignments_are_statements() {
    let s = mk_assign(local(1), number(2));
    match s {
        Stmt::ExprStmt(Expr::Assign { target, value, .. }) => {
            assert_eq!(*target, local(1));
            assert_eq!(*value, number(2));
        }
        other => panic!("{:?}", other),
    }
}

#[test]
fn class_names_become_types() {
    assert_eq!(class_name_to_type("java/lang/String"), object("java/lang/String"));
    assert_eq!(class_name_to_type("[I"), JType::Array(Box::new(JType::Int)));
    assert_eq!(
        class_name_to_type("[[Ljava/lang/String;"),
        JType::Array(Box::new(JType::Array(Box::new(object("java/lang/String")))))
    );
}

#[test]
fn side_effects() {
    assert!(!has_side_effects(&number(1)));
    assert!(!has_side_effects(&local(3)));
    let store = match mk_assign(local(1), number(2)) {
        Stmt::ExprStmt(e) => e,
        other => panic!("{:?}", other),
    };
    assert!(has_side_effects(&store));
    let inside = Expr::Un { op: UnOp::Neg, e: Box::new(store) };
    assert!(has_side_effects(&inside));
}

#[test]
fn integer_operators_fold_as_the_machine_computes() {
    let f = |op, a, b| fold_const_binop(op, &number(a), &number(b));
    assert_eq!(f(BinOp::Add, i32::MAX, 1), Some(ConstVal::Int(i32::MIN)));
    assert_eq!(f(BinOp::Sub, 3, 5), Some(ConstVal::Int(-2)));
    assert_eq!(f(BinOp::Mul, 1 << 20, 1 << 20), Some(ConstVal::Int(0)));
    assert_eq!(f(BinOp::Div, -7, 2), Some(ConstVal::Int(-3)));
    assert_eq!(f(BinOp::Div, 7, 0), None);
    assert_eq!(f(BinOp::Rem, -7, 2), Some(ConstVal::Int(-1)));
    assert_eq!(f(BinOp::And, 12, 10), Some(ConstVal::Int(8)));
    assert_eq!(f(BinOp::Or, 12, 10), Some(ConstVal::Int(14)));
    assert_eq!(f(BinOp::Xor, 12, 10), Some(ConstVal::Int(6)));
    assert_eq!(fold_const_binop(BinOp::Add, &number(1), &local(2)), None);
}

#[test]
fn negation_of_constants() {
    assert_eq!(neg(number(5)), number(-5));
    assert_eq!(neg(number(i32::MIN)), number(i32::MIN));
    assert_eq!(neg(Expr::Const(ConstVal::Long(-9))), Expr::Const(ConstVal::Long(9)));
    assert_eq!(
        neg(Expr::Const(ConstVal::Float(1.5f32.to_bits()))),
        Expr::Const(ConstVal::Float((-1.5f32).to_bits()))
    );
    assert_eq!(neg(local(1)), Expr::Un { op: UnOp::Neg, e: Box::new(local(1)) });
}

#[test]
fn conversion_of_constants() {
    assert_eq!(convert(number(3), JType::Int), number(3));
    assert_eq!(convert(number(3), JType::Long), Expr::Const(ConstVal::Long(3)));
    assert_eq!(convert(number(-3), JType::Float), Expr::Const(ConstVal::Float((-3f32).to_bits())));
    assert_eq!(
        convert(Expr::Const(ConstVal::Long(1 << 60)), JType::Double),
        Expr::Const(ConstVal::Double(((1i64 << 60) as f64).to_bits()))
    );
    assert_eq!(
        convert(local(1), JType::Byte),
        Expr::Cast { ty: TypeRef::J(JType::Byte), e: Box::new(local(1)) }
    );
}

#[test]
fn integers_round_to_floats_as_the_hardware_does() {
    for i in [
        0i64, 1, -1, 2, 3, 16777216, 16777217, 16777219, -16777217, i32::MAX as i64, i64::MAX,
        i64::MIN, 9007199254740993, 9007199254740995, -9007199254740993, 123456789012345678,
    ] {
        assert_eq!(to_single(i), (i as f32).to_bits(), "{}", i);
        assert_eq!(to_double(i), (i as f64).to_bits(), "{}", i);
    }
}

#[test]
fn singles_widen_exactly() {
    for f in [0f32, -0f32, 1.0, -2.5, 1e-45, 1.17549421e-38, f32::MAX, f32::INFINITY, f32::NEG_INFINITY] {
        assert_eq!(widen(f.to_bits()), (f as f64).to_bits(), "{}", f);
    }
}

#[test]
fn negating_twice_changes_nothing() {
    for b in [0u32, 1, 0x3fc0_0000, 0x8000_0000, 0x7fc0_0000, u32::MAX] {
        assert_eq!(negate_single(negate_single(b)), b);
        assert_ne!(negate_single(b), b);
    }
    assert_eq!(negate_double(2.5f64.to_bits()), (-2.5f64).to_bits());
}

#[test]
fn recipes_read_arguments_and_constants() {
    let parts = parse_concat_recipe("a\u{1}b\u{2}c\u{1}", vec![local(1), local(2)], &vec!["X".to_string()]);
    assert_eq!(
        parts,
        vec![
            ConcatPart::Const("a".to_string()),
            ConcatPart::Str(local(1)),
            ConcatPart::Const("bXc".to_string()),
            ConcatPart::Str(local(2)),
        ]
    );
    assert_eq!(parse_concat_recipe("", vec![], &vec![]), vec![]);
    // More placeholders than arguments: the rest stand for nothing.
    assert_eq!(parse_concat_recipe("\u{1}\u{1}", vec![local(1)], &vec![]), vec![ConcatPart::Str(local(1))]);
}

#[test]
fn recipes_keep_every_argument_in_order() {
    let parts = parse_concat_recipe("\u{1}\u{1}\u{1}", vec![local(3), local(1), local(2)], &vec![]);
    assert_eq!(
        parts,
        vec![ConcatPart::Str(local(3)), ConcatPart::Str(local(1)), ConcatPart::Str(local(2))]
    );
}

#[test]
fn no_append_chain_without_a_builder() {
    assert_eq!(collect_append_chain(&local(1)), None);
}

#[test]
fn choices_between_zero_and_one_are_booleans() {
    let choice = |t, f| Expr::Cond {
        c: Box::new(local(1)),
        t: Box::new(number(t)),
        f: Box::new(number(f)),
    };
    let mut e = choice(1, 0);
    booleanize(&mut e);
    assert_eq!(e, local(1));
    let mut e = choice(0, 1);
    booleanize(&mut e);
    assert_eq!(e, Expr::Un { op: UnOp::Not, e: Box::new(local(1)) });
    let mut e = choice(0, 2);
    booleanize(&mut e);
    assert_eq!(e, choice(0, 2));
    let flag = || Expr::Local { var: 2, ty: TypeRef::J(JType::Boolean) };
    let mut e = Expr::Bin { op: BinOp::Ne, l: Box::new(flag()), r: Box::new(number(0)), ty: None };
    booleanize(&mut e);
    assert_eq!(e, flag());
}

#[test]
fn joined_types_hold_both() {
    assert_eq!(join_types(&JType::Int, &JType::Int), JType::Int);
    assert_eq!(join_types(&JType::Int, &JType::Long), JType::Long);
    assert_eq!(join_types(&JType::Double, &JType::Float), JType::Double);
    assert_eq!(join_types(&object("java/lang/Object"), &object("A")), object("A"));
    assert_eq!(join_types(&object("A"), &object("B")), object("java/lang/Object"));
    assert_eq!(join_types(&object("java/lang/Throwable"), &object("B")), object("B"));
}

#[test]
fn operators_invert() {
    assert_eq!(BinOp::Lt.invert(), Some(BinOp::Ge));
    assert_eq!(BinOp::RefEq.invert(), Some(BinOp::Ne));
    assert_eq!(BinOp::Add.invert(), None);
}

#[test]
fn equality_looks_inside() {
    assert!(expr_eq(&local(1), &local(1)));
    assert!(!expr_eq(&local(1), &local(2)));
    let a = Expr::ArrayIndex { array: Box::new(local(1)), index: Box::new(number(0)) };
    let b = Expr::ArrayIndex { array: Box::new(local(1)), index: Box::new(number(1)) };
    assert!(!expr_eq(&a, &b));
    assert!(expr_eq(&a, &a));
}

#[test]
fn fresh_arrays_have_keys_and_others_none() {
    let fresh = Expr::NewArray {
        elem: TypeRef::J(JType::Int),
        dims: vec![number(2)],
        trailing_dims: 0,
        init: None,
    };
    assert!(array_key(&fresh).is_some());
    assert!(array_key(&local(1)).is_none());
    let mut e = local(1);
    let mut waiting: Vec<PendingArray> = Vec::new();
    materialize_arrays(&mut e, &mut waiting);
    assert_eq!(e, local(1));
    assert!(waiting.is_empty());
}
