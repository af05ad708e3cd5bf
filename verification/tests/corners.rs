use jcdc::arrays::{array_key, materialize_arrays, PendingArray};
use jcdc::assigns::{stmt_assigns_var, stmt_uses_var};
use jcdc::booleans::booleanize_deep;
use jcdc::catches::resolve_catch_vars;
use jcdc::classes::PoolClass;
use jcdc::cleanup::cleanup;
use jcdc::ctor_guards::hoist_ctor_call_guards;
use jcdc::dead_stores::prune_dead_synth_stores;
use jcdc::diamonds::collect_expr_locals;
use jcdc::escapes::{ensure_declared, find_loop_decl_path, SlotStep};
use jcdc::expr::{AssignOp, BinOp, ConcatPart, ConstVal, Expr, LambdaExpr, LambdaKind, UnOp};
use jcdc::finallys::{dedupe_finally, norm_stmt_for_dedupe};
use jcdc::infer::join_types;
use jcdc::merged_news::fold_merged_new_inits;
use jcdc::monitors::{
    find_trailing_place, reconstruct_synchronized, restore_trailing_monitor, take_trailing_monitor,
};
use jcdc::retype::rewrite_local_types;
use jcdc::rewrite::rewrite_var;
use jcdc::split::split_reassigned_synthetic;
use jcdc::stack_vars::{fold_this_stack_vars, hoist_stack_vars};
use jcdc::stmt::{CaseGroup, Catch, Stmt};
use jcdc::termination::{prune_unreachable, stmt_terminates};
use jcdc::types::{JType, MethodDescriptor, TypeRef};
use jcdc::values::has_side_effects;
use jcdc::var::{VarInfo, VarTable};
use std::collections::HashSet;

fn number(i: i32) -> Expr {
    Expr::Const(ConstVal::Int(i))
}

fn text(s: &str) -> Expr {
    Expr::Const(ConstVal::Str(s.to_string()))
}

fn class_type(name: &str) -> TypeRef {
    TypeRef::J(JType::Object(name.to_string()))
}

fn local(var: u32) -> Expr {
    Expr::Local { var, ty: TypeRef::J(JType::Int) }
}

fn flag(var: u32) -> Expr {
    Expr::Local { var, ty: TypeRef::J(JType::Boolean) }
}

fn call(owner: Expr, cls: &str, name: &str, args: Vec<Expr>) -> Expr {
    Expr::Method {
        owner: Some(Box::new(owner)),
        cls: cls.to_string(),
        name: name.to_string(),
        desc: MethodDescriptor { args: vec![], ret: JType::Void },
        args,
        is_static: false,
        is_interface: false,
        is_special: name == "<init>",
        is_super: name == "<init>",
        is_dynamic: false,
        type_args: vec![],
    }
}

fn run(name: &str) -> Stmt {
    Stmt::ExprStmt(call(Expr::This, "A", name, vec![]))
}

fn assign(var: u32, value: Expr) -> Expr {
    Expr::Assign { target: Box::new(local(var)), op: AssignOp::Plain, value: Box::new(value) }
}

fn store(var: u32, value: Expr) -> Stmt {
    Stmt::ExprStmt(assign(var, value))
}

fn increment(var: u32) -> Stmt {
    Stmt::ExprStmt(Expr::PostIncDec { e: Box::new(local(var)), delta: 1, wide: false })
}

fn def(var: u32, init: Option<Expr>) -> Stmt {
    Stmt::LocalDef { var, init, is_final: false, force_type: true }
}

fn block(v: Vec<Stmt>) -> Stmt {
    Stmt::Block(v)
}

fn labeled(body: Stmt) -> Stmt {
    Stmt::Labeled { label: "L".to_string(), body: Box::new(body) }
}

fn check(cond: Expr) -> Stmt {
    Stmt::Assert { cond, msg: None }
}

fn choice(c: Expr) -> Expr {
    Expr::Cond { c: Box::new(c), t: Box::new(number(1)), f: Box::new(number(0)) }
}

fn try_finally(body: Stmt, fin: Stmt) -> Stmt {
    Stmt::Try { body: Box::new(body), catches: vec![], finally: Some(Box::new(fin)) }
}

fn arm(body: Vec<Stmt>) -> CaseGroup {
    CaseGroup {
        labels: vec![1],
        string_labels: vec![],
        enum_labels: vec![],
        raw_labels: vec![],
        guard: None,
        body,
    }
}

fn switch(body: Vec<Stmt>) -> Stmt {
    Stmt::Switch { selector: local(0), cases: vec![arm(body)], default: None, on_string: false }
}

fn var(id: u32, synthetic_name: bool, ty: TypeRef) -> VarInfo {
    VarInfo {
        id,
        slot: id as u16,
        name: format!("v{}", id),
        ty,
        is_param: false,
        range_start: 0,
        range_end: u16::MAX,
        synthetic_name,
    }
}

fn table(vars: Vec<VarInfo>) -> VarTable {
    VarTable {
        vars,
        by_slot: vec![],
        has_lvt: true,
        stack_vars: vec![],
        wide_stack_vars: HashSet::new(),
        handler_starts: vec![],
    }
}

fn class() -> PoolClass {
    PoolClass {
        internal_name: "A".to_string(),
        major_version: 52,
        access_flags: 0,
        super_class: 0,
        constants: vec![],
        interfaces: vec![],
        fields: vec![],
        methods: vec![],
        attributes: vec![],
        bootstrap_methods: vec![],
    }
}

#[test]
fn arithmetic_on_a_choice_keeps_the_number() {
    let minus = |e: Expr| Expr::Un { op: UnOp::Neg, e: Box::new(e) };
    let mut e = minus(choice(flag(0)));
    booleanize_deep(&mut e, false);
    assert_eq!(e, minus(choice(flag(0))));
    // A double negation goes, any other operator on a negation stays.
    let not = |e: Expr| Expr::Un { op: UnOp::Not, e: Box::new(e) };
    let mut e = not(not(flag(0)));
    booleanize_deep(&mut e, false);
    assert_eq!(e, flag(0));
    let mut e = minus(not(flag(0)));
    booleanize_deep(&mut e, false);
    assert_eq!(e, minus(not(flag(0))));
}

#[test]
fn split_variables_are_followed_everywhere() {
    let string = class_type("java/lang/String");
    let mut vt = table(vec![
        var(0, true, TypeRef::J(JType::Int)),
        var(1, false, string),
    ]);
    let joined = |v: u32| Expr::StringConcat(vec![ConcatPart::Str(local(v))]);
    let mut s = block(vec![
        store(0, number(1)),
        store(0, text("a")),
        store(1, joined(0)),
        check(local(0)),
    ]);
    split_reassigned_synthetic(&mut vt, &mut s);
    assert_eq!(vt.vars.len(), 3);
    match &s {
        Stmt::Block(v) => {
            match &v[2] {
                Stmt::ExprStmt(Expr::Assign { value, .. }) => assert_eq!(**value, joined(2)),
                other => panic!("{:?}", other),
            }
            assert_eq!(v[3], check(local(2)));
        }
        other => panic!("{:?}", other),
    }
}

#[test]
fn an_assignment_in_an_expression_gives_another_value() {
    let body = || {
        block(vec![
            def(0, Some(Expr::This)),
            Stmt::Return(Some(assign(0, Expr::Const(ConstVal::Null)))),
        ])
    };
    let mut s = body();
    fold_this_stack_vars(&mut s, &vec![0]);
    assert_eq!(s, body());
    // A read inside an assertion is replaced with the others.
    let mut s = block(vec![def(0, Some(Expr::This)), check(local(0))]);
    fold_this_stack_vars(&mut s, &vec![0]);
    assert_eq!(s, block(vec![check(Expr::This)]));
}

#[test]
fn assertions_read_variables() {
    let vt = table(vec![var(0, true, TypeRef::J(JType::Int))]);
    let body = || block(vec![store(0, number(1)), check(local(0))]);
    let mut s = body();
    prune_dead_synth_stores(&mut s, &vt);
    assert_eq!(s, body());
    let mut s = block(vec![check(local(0))]);
    ensure_declared(&vt, &mut s);
    match &s {
        Stmt::Block(v) => {
            assert_eq!(v.len(), 2);
            assert!(matches!(&v[0], Stmt::LocalDef { var: 0, .. }));
        }
        other => panic!("{:?}", other),
    }
}

#[test]
fn every_merged_constructor_keeps_its_own_arguments() {
    let owner = || Expr::Local { var: 7, ty: class_type("C") };
    let init = |i: i32| Stmt::ExprStmt(call(owner(), "C", "<init>", vec![number(i)]));
    let made = |i: i32| {
        block(vec![block(vec![Stmt::ExprStmt(Expr::Assign {
            target: Box::new(owner()),
            op: AssignOp::Plain,
            value: Box::new(Expr::New {
                cls: "C".to_string(),
                ty: class_type("C"),
                args: vec![number(i)],
                raw: false,
            }),
        })])])
    };
    let choose = |a: Stmt, b: Stmt| Stmt::If {
        cond: flag(0),
        then_stmt: Box::new(a),
        else_stmt: Some(Box::new(b)),
    };
    let mut s = choose(block(vec![init(1)]), block(vec![init(2)]));
    fold_merged_new_inits(&mut s, &class());
    assert_eq!(s, choose(made(1), made(2)));
    // Only variables that were to hold an object of the same class get a copy.
    let raw = |var: u32, cls: &str| Stmt::ExprStmt(Expr::Assign {
        target: Box::new(Expr::Local { var, ty: class_type(cls) }),
        op: AssignOp::Plain,
        value: Box::new(Expr::New {
            cls: cls.to_string(),
            ty: class_type(cls),
            args: vec![],
            raw: true,
        }),
    });
    let other = Expr::Local { var: 8, ty: class_type("D") };
    let mut s = block(vec![
        raw(7, "C"),
        raw(8, "D"),
        init(1),
        Stmt::ExprStmt(call(other, "D", "<init>", vec![])),
    ]);
    fold_merged_new_inits(&mut s, &class());
    match &s {
        Stmt::Block(v) => {
            assert_eq!(v.len(), 2);
            for x in v {
                assert!(matches!(x, Stmt::Block(w) if w.len() == 1), "{:?}", x);
            }
        }
        other => panic!("{:?}", other),
    }
}

#[test]
fn uses_are_seen_in_every_statement() {
    let each = Stmt::ForEach {
        var: 9,
        iterable: local(3),
        is_array: true,
        body: Box::new(block(vec![])),
    };
    let sync = Stmt::Synchronized { lock: local(3), body: Box::new(block(vec![])) };
    let joined = Stmt::Return(Some(Expr::StringConcat(vec![ConcatPart::Str(local(3))])));
    let literal = Stmt::Return(Some(Expr::NewArray {
        elem: TypeRef::J(JType::Int),
        dims: vec![],
        trailing_dims: 0,
        init: Some(vec![local(3)]),
    }));
    let inner = switch(vec![increment(3)]);
    for s in [&each, &sync, &joined, &literal, &inner, &labeled(increment(3)), &check(local(3))] {
        assert!(stmt_uses_var(s, 3), "{:?}", s);
        assert!(!stmt_uses_var(s, 4), "{:?}", s);
    }
    assert!(stmt_assigns_var(&check(assign(3, number(1))), 3));
    assert!(!stmt_assigns_var(&check(local(3)), 3));
}

#[test]
fn only_copies_of_the_finally_body_go() {
    // The same variable is incremented: a copy.
    let mut s = block(vec![try_finally(run("work"), block(vec![increment(1)])), increment(1)]);
    dedupe_finally(&mut s);
    assert_eq!(s, block(vec![try_finally(run("work"), block(vec![increment(1)]))]));
    // Another one is: not a copy.
    let body =
        || block(vec![try_finally(run("work"), block(vec![increment(1)])), increment(2)]);
    let mut s = body();
    dedupe_finally(&mut s);
    assert_eq!(s, body());
    // Variables that the copies declare themselves may differ.
    let close = |var: u32| Stmt::Try {
        body: Box::new(run("close")),
        catches: vec![Catch {
            exc: vec!["E".to_string()],
            var,
            var_name: None,
            body: Box::new(Stmt::ExprStmt(call(local(var), "E", "log", vec![]))),
        }],
        finally: None,
    };
    let mut s = block(vec![try_finally(run("work"), block(vec![close(4)])), close(5)]);
    dedupe_finally(&mut s);
    assert_eq!(s, block(vec![try_finally(run("work"), block(vec![close(4)]))]));
}

#[test]
fn renaming_reaches_every_access() {
    let grid = |v: u32| Expr::NewMultiArray { ty: TypeRef::J(JType::Int), dims: vec![local(v)] };
    let mut s = block(vec![check(local(3)), Stmt::Return(Some(grid(3)))]);
    rewrite_var(&mut s, 3, 5);
    let shown = format!("{:?}", s);
    assert!(!shown.contains("var: 3"), "{}", shown);
    assert_eq!(shown.matches("var: 5").count(), 2, "{}", shown);
}

#[test]
fn loops_that_differ_in_names_are_equal_when_numbered() {
    let each = |var: u32, over: u32| Stmt::ForEach {
        var,
        iterable: local(over),
        is_array: true,
        body: Box::new(block(vec![increment(var), check(local(over))])),
    };
    let mut a = each(3, 4);
    let mut b = each(8, 9);
    let mut seen_a: Vec<u32> = vec![];
    let mut seen_b: Vec<u32> = vec![];
    norm_stmt_for_dedupe(&mut a, &mut seen_a);
    norm_stmt_for_dedupe(&mut b, &mut seen_b);
    assert_eq!(a, b);
    assert_eq!(seen_a.len(), seen_b.len());
    let mut c = each(8, 8);
    norm_stmt_for_dedupe(&mut c, &mut vec![]);
    assert_ne!(a, c);
}

#[test]
fn a_loop_body_must_hold_every_mention() {
    let looping =
        |cond: Expr| Stmt::While { cond, body: Box::new(increment(3)) };
    assert!(find_loop_decl_path(&looping(local(3)), 3).is_none());
    let p = find_loop_decl_path(&looping(local(4)), 3);
    assert_eq!(p, Some(vec![SlotStep::LoopBody]));
    // An outer loop holds what an inner one's condition mentions.
    let outer = Stmt::While { cond: local(4), body: Box::new(looping(local(3))) };
    assert_eq!(find_loop_decl_path(&outer, 3), Some(vec![SlotStep::LoopBody]));
}

#[test]
fn declarations_under_labels_are_hoisted() {
    let mut s = block(vec![labeled(def(3, Some(number(1))))]);
    hoist_stack_vars(&mut s, &vec![3]);
    assert_eq!(s, block(vec![def(3, None), labeled(store(3, number(1)))]));
}

#[test]
fn guards_may_stand_in_the_first_branch() {
    let ctor = || Stmt::ExprStmt(call(Expr::This, "A", "<init>", vec![]));
    let throw = || block(vec![Stmt::Throw(local(1))]);
    let mut s = Stmt::If {
        cond: flag(0),
        then_stmt: Box::new(throw()),
        else_stmt: Some(Box::new(block(vec![ctor(), Stmt::Return(None)]))),
    };
    hoist_ctor_call_guards(&mut s);
    let guard =
        Stmt::If { cond: flag(0), then_stmt: Box::new(throw()), else_stmt: None };
    assert_eq!(s, block(vec![guard, ctor()]));
    // Anything else stays as it is.
    let plain = || Stmt::If {
        cond: flag(0),
        then_stmt: Box::new(run("a")),
        else_stmt: Some(Box::new(run("b"))),
    };
    let mut s = plain();
    hoist_ctor_call_guards(&mut s);
    assert_eq!(s, plain());
}

#[test]
fn a_break_to_its_own_label_completes_a_statement() {
    let leave = |l: &str| Stmt::Break(Some(l.to_string()));
    assert!(!stmt_terminates(&labeled(block(vec![leave("L")]))));
    assert!(stmt_terminates(&labeled(block(vec![leave("M")]))));
    let body = || block(vec![labeled(block(vec![leave("L")])), run("after")]);
    let mut s = body();
    prune_unreachable(&mut s);
    assert_eq!(s, body());
}

#[test]
fn arms_are_cut_after_their_statements_are_pruned() {
    let mut s = switch(vec![block(vec![Stmt::Return(None), run("x")]), run("y")]);
    prune_unreachable(&mut s);
    assert_eq!(s, switch(vec![block(vec![Stmt::Return(None)])]));
}

#[test]
fn what_may_fail_has_an_effect() {
    let bin = |op: BinOp, r: Expr| Expr::Bin {
        op,
        l: Box::new(local(0)),
        r: Box::new(r),
        ty: Some(TypeRef::J(JType::Int)),
    };
    assert!(has_side_effects(&bin(BinOp::Div, number(0))));
    assert!(has_side_effects(&bin(BinOp::Rem, local(1))));
    assert!(!has_side_effects(&bin(BinOp::Div, number(2))));
    assert!(!has_side_effects(&bin(BinOp::Add, local(1))));
    let double = Expr::Local { var: 1, ty: TypeRef::J(JType::Double) };
    let ratio = Expr::Bin {
        op: BinOp::Div,
        l: Box::new(Expr::Local { var: 0, ty: TypeRef::J(JType::Double) }),
        r: Box::new(double),
        ty: Some(TypeRef::J(JType::Double)),
    };
    assert!(!has_side_effects(&ratio));
    let field = |owner: Option<Expr>, is_static: bool| Expr::Field {
        owner: owner.map(Box::new),
        cls: "A".to_string(),
        name: "f".to_string(),
        ty: TypeRef::J(JType::Int),
        is_static,
    };
    assert!(!has_side_effects(&field(Some(Expr::This), false)));
    assert!(has_side_effects(&field(Some(local(0)), false)));
    assert!(!has_side_effects(&field(None, false)));
    assert!(has_side_effects(&field(None, true)));
    let cast = |ty: TypeRef, e: Expr| Expr::Cast { ty, e: Box::new(e) };
    assert!(has_side_effects(&cast(class_type("B"), local(0))));
    assert!(!has_side_effects(&cast(TypeRef::J(JType::Byte), local(0))));
    assert!(!has_side_effects(&cast(class_type("java/lang/Object"), local(0))));
    assert!(!has_side_effects(&cast(class_type("B"), Expr::Const(ConstVal::Null))));
    assert!(has_side_effects(&cast(class_type("java/lang/Object"), call(local(0), "A", "m", vec![]))));
}

#[test]
fn arguments_of_dynamic_calls_stay_as_they_are() {
    let number_call = || Expr::Invokedynamic {
        name: "apply".to_string(),
        desc: MethodDescriptor { args: vec![JType::Int], ret: JType::Int },
        args: vec![choice(flag(0))],
        bsm_text: "a/Boot.link".to_string(),
        bsm_static_args: vec![],
    };
    let mut e = number_call();
    booleanize_deep(&mut e, false);
    assert_eq!(e, number_call());
    let lambda = || Expr::Lambda(Box::new(LambdaExpr {
        kind: LambdaKind::Lambda,
        sam_name: "apply".to_string(),
        sam_desc: MethodDescriptor { args: vec![], ret: JType::Int },
        inst_sam_desc: None,
        impl_owner: "A".to_string(),
        impl_name: "pick".to_string(),
        impl_desc: MethodDescriptor { args: vec![JType::Int], ret: JType::Int },
        impl_is_static: true,
        captures: vec![choice(flag(0))],
        param_names: vec![],
        ref_receiver: None,
        capture_snaps: vec![],
    }));
    let mut e = lambda();
    booleanize_deep(&mut e, false);
    assert_eq!(e, lambda());
}

#[test]
fn references_outweigh_numbers() {
    let object = |n: &str| JType::Object(n.to_string());
    assert_eq!(join_types(&JType::Int, &object("B")), object("B"));
    assert_eq!(join_types(&object("B"), &JType::Int), object("B"));
    let thrown = object("java/lang/Throwable");
    assert_eq!(join_types(&JType::Int, &thrown), thrown);
}

#[test]
fn a_lock_that_starts_no_block_stays_where_it_is() {
    let guarded = || Stmt::If {
        cond: flag(0),
        then_stmt: Box::new(block(vec![run("a"), Stmt::MonitorEnter(local(1))])),
        else_stmt: None,
    };
    let body = || block(vec![guarded(), try_finally(run("work"), block(vec![run("done")]))]);
    let mut s = body();
    reconstruct_synchronized(&mut s);
    assert_eq!(s, body());
}

#[test]
fn a_lock_that_is_put_back_stands_where_it_stood() {
    let inside = || Stmt::If {
        cond: flag(0),
        then_stmt: Box::new(block(vec![run("a"), Stmt::MonitorEnter(local(1))])),
        else_stmt: None,
    };
    let behind = || block(vec![
        Stmt::If { cond: flag(0), then_stmt: Box::new(block(vec![])), else_stmt: None },
        Stmt::MonitorEnter(local(1)),
        Stmt::Break(None),
    ]);
    for body in [inside(), behind(), labeled(inside()), block(vec![run("b"), inside()])] {
        let mut s = jcdc::stmt::clone_stmt(&body);
        let place = find_trailing_place(&s);
        let lock = take_trailing_monitor(&mut s).unwrap();
        assert_eq!(lock, local(1));
        assert_ne!(s, body);
        restore_trailing_monitor(&mut s, Stmt::MonitorEnter(lock), &place);
        assert_eq!(s, body);
    }
}

#[test]
fn passes_look_under_labels() {
    // Cleanup.
    let mut s = labeled(block(vec![block(vec![run("a")]), block(vec![])]));
    cleanup(&mut s);
    assert_eq!(s, labeled(block(vec![run("a")])));
    // Types of accesses.
    let mut s = labeled(Stmt::Return(Some(local(0))));
    rewrite_local_types(&mut s, &vec![class_type("B")]);
    let typed = Expr::Local { var: 0, ty: class_type("B") };
    assert_eq!(s, labeled(Stmt::Return(Some(typed))));
    // Catch variables; an assertion follows the binding.
    let mut vt = table(vec![var(0, false, class_type("E"))]);
    let mut s = labeled(Stmt::Try {
        body: Box::new(run("work")),
        catches: vec![Catch {
            exc: vec!["E".to_string()],
            var: u32::MAX,
            var_name: None,
            body: Box::new(block(vec![def(0, Some(local(u32::MAX))), check(local(0))])),
        }],
        finally: None,
    });
    resolve_catch_vars(&mut s, &mut vt);
    match &s {
        Stmt::Labeled { body, .. } => match &**body {
            Stmt::Try { catches, .. } => {
                assert_ne!(catches[0].var, u32::MAX);
                let shown = format!("{:?}", catches[0].body);
                assert!(shown.contains(&format!("var: {}", catches[0].var)), "{}", shown);
                assert!(!shown.contains("var: 0,"), "{}", shown);
            }
            other => panic!("{:?}", other),
        },
        other => panic!("{:?}", other),
    }
    // Synchronized blocks.
    let mut s = labeled(block(vec![
        Stmt::MonitorEnter(local(1)),
        try_finally(block(vec![run("a")]), block(vec![Stmt::MonitorExit(local(1))])),
    ]));
    reconstruct_synchronized(&mut s);
    let shown = format!("{:?}", s);
    assert!(shown.contains("Synchronized"), "{}", shown);
}

#[test]
fn every_read_of_an_expression_is_collected() {
    let e = Expr::New {
        cls: "B".to_string(),
        ty: class_type("B"),
        args: vec![local(1), Expr::StringConcat(vec![ConcatPart::Str(local(2))])],
        raw: false,
    };
    let mut out: Vec<u32> = vec![];
    collect_expr_locals(&e, &mut out);
    assert_eq!(out, vec![1, 2]);
}

#[test]
fn a_waiting_initializer_is_used_once() {
    let fresh = || Expr::NewArray {
        elem: TypeRef::J(JType::Int),
        dims: vec![number(2)],
        trailing_dims: 0,
        init: None,
    };
    let (elem, dims) = array_key(&fresh()).unwrap();
    let mut arrays = vec![PendingArray { elem, dims, values: vec![number(5), number(6)] }];
    let mut e = fresh();
    materialize_arrays(&mut e, &mut arrays);
    assert!(matches!(&e, Expr::NewArray { init: Some(v), .. } if v.len() == 2), "{:?}", e);
    assert!(arrays.is_empty());
    let mut e = fresh();
    materialize_arrays(&mut e, &mut arrays);
    assert_eq!(e, fresh());
}
