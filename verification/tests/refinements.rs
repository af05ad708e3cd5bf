use jcdc::booleans::booleanize_deep_stmt_r;
use jcdc::catches::{assign_catch_names, fix_empty_catchall, resolve_catch_vars};
use jcdc::classes::{ClassPool, PoolClass};
use jcdc::ctor_guards::hoist_ctor_call_guards;
use jcdc::dead_stores::prune_dead_synth_stores;
use jcdc::escapes::hoist_escaped_vars;
use jcdc::expr::{AssignOp, ConstVal, Expr, UnOp};
use jcdc::finallys::dedupe_finally;
use jcdc::generic_casts::{cast_generic_locals, cast_sites, CastFacts};
use jcdc::infer::infer_var_types;
use jcdc::merged_news::fold_merged_new_inits;
use jcdc::monitors::drop_monitor_stores;
use jcdc::retype::{cast_narrowing_assigns, cast_object_returns};
use jcdc::selftype::strip_selftype_checkcasts;
use jcdc::stack_vars::fold_this_stack_vars;
use jcdc::stmt::{Catch, Stmt};
use jcdc::types::{JType, MethodDescriptor, TypeRef};
use jcdc::var::{VarInfo, VarTable};
use std::collections::HashSet;

fn number(i: i32) -> Expr {
    Expr::Const(ConstVal::Int(i))
}

fn object(name: &str) -> TypeRef {
    TypeRef::J(JType::Object(name.to_string()))
}

fn typed(var: u32, ty: TypeRef) -> Expr {
    Expr::Local { var, ty }
}

fn local(var: u32) -> Expr {
    typed(var, object("java/lang/Object"))
}

fn call(owner: Option<Expr>, name: &str, args: Vec<Expr>) -> Expr {
    Expr::Method {
        owner: owner.map(Box::new),
        cls: "A".to_string(),
        name: name.to_string(),
        desc: MethodDescriptor { args: vec![], ret: JType::Void },
        args,
        is_static: false,
        is_interface: false,
        is_special: name == "<init>",
        is_super: false,
        is_dynamic: false,
        type_args: vec![],
    }
}

fn run(name: &str) -> Stmt {
    Stmt::ExprStmt(call(Some(Expr::This), name, vec![]))
}

fn def(var: u32, init: Option<Expr>) -> Stmt {
    Stmt::LocalDef { var, init, is_final: false, force_type: false }
}

fn store(target: Expr, value: Expr) -> Stmt {
    Stmt::ExprStmt(Expr::Assign {
        target: Box::new(target),
        op: AssignOp::Plain,
        value: Box::new(value),
    })
}

fn block(v: Vec<Stmt>) -> Stmt {
    Stmt::Block(v)
}

fn catch(exc: &[&str], var: u32, body: Stmt) -> Catch {
    Catch {
        exc: exc.iter().map(|s| s.to_string()).collect(),
        var,
        var_name: None,
        body: Box::new(body),
    }
}

fn var(id: u32, name: &str, ty: TypeRef, synthetic_name: bool) -> VarInfo {
    VarInfo {
        id,
        slot: id as u16,
        name: name.to_string(),
        ty,
        is_param: false,
        range_start: 0,
        range_end: u16::MAX,
        synthetic_name,
    }
}

fn table(vars: Vec<VarInfo>) -> VarTable {
    VarTable {
        vars,
        by_slot: vec![],
        has_lvt: true,
        stack_vars: vec![],
        wide_stack_vars: HashSet::new(),
        handler_starts: vec![],
    }
}

fn class() -> PoolClass {
    PoolClass {
        internal_name: "A".to_string(),
        major_version: 52,
        access_flags: 0,
        super_class: 0,
        constants: vec![],
        interfaces: vec![],
        fields: vec![],
        methods: vec![],
        attributes: vec![],
        bootstrap_methods: vec![],
    }
}

fn pool() -> ClassPool {
    ClassPool { classes: vec![], resolved: vec![] }
}

#[test]
fn empty_catch_alls_rethrow() {
    let mut s = Stmt::Try {
        body: Box::new(run("a")),
        catches: vec![catch(&[], 3, block(vec![])), catch(&["X"], 4, block(vec![]))],
        finally: None,
    };
    fix_empty_catchall(&mut s);
    match s {
        Stmt::Try { catches, .. } => {
            assert_eq!(
                *catches[0].body,
                Stmt::Throw(typed(3, object("java/lang/Throwable")))
            );
            assert_eq!(*catches[1].body, block(vec![]));
        }
        other => panic!("{:?}", other),
    }
}

#[test]
fn catch_variables_take_over_from_the_stack() {
    let mut vt = table(vec![
        var(0, "this", object("A"), false),
        var(1, "e", object("java/lang/Exception"), false),
    ]);
    let mut s = Stmt::Try {
        body: Box::new(block(vec![run("a")])),
        catches: vec![catch(
            &["java/lang/Exception"],
            u32::MAX,
            block(vec![def(1, Some(Expr::Const(ConstVal::Null))), Stmt::Throw(local(1))]),
        )],
        finally: None,
    };
    resolve_catch_vars(&mut s, &mut vt);
    match &s {
        Stmt::Try { catches, .. } => {
            assert_eq!(catches[0].var, 2);
            let text = format!("{:?}", catches[0].body);
            assert!(text.contains("var: 2"), "{}", text);
            assert!(!text.contains("var: 1"), "{}", text);
        }
        other => panic!("{:?}", other),
    }
    assert_eq!(vt.vars[2].name, "e");
    assert_eq!(vt.vars[2].slot, 1);
    assert_eq!(vt.vars[2].ty, object("java/lang/Exception"));
    assign_catch_names(&mut vt, &mut s);
    match &s {
        Stmt::Try { catches, .. } => assert!(catches[0].var_name.is_some()),
        other => panic!("{:?}", other),
    }
}

#[test]
fn constructor_guards_come_before_the_call() {
    let delegate = || {
        Stmt::ExprStmt(Expr::Method {
            owner: Some(Box::new(Expr::This)),
            cls: "B".to_string(),
            name: "<init>".to_string(),
            desc: MethodDescriptor { args: vec![], ret: JType::Void },
            args: vec![],
            is_static: false,
            is_interface: false,
            is_special: true,
            is_super: true,
            is_dynamic: false,
            type_args: vec![],
        })
    };
    let mut s = block(vec![Stmt::If {
        cond: local(1),
        then_stmt: Box::new(block(vec![delegate(), run("x"), Stmt::Return(None)])),
        else_stmt: Some(Box::new(block(vec![Stmt::Throw(local(2))]))),
    }]);
    hoist_ctor_call_guards(&mut s);
    let guard = Stmt::If {
        cond: Expr::Un { op: UnOp::Not, e: Box::new(local(1)) },
        then_stmt: Box::new(block(vec![Stmt::Throw(local(2))])),
        else_stmt: None,
    };
    assert_eq!(s, block(vec![block(vec![guard, delegate(), run("x")])]));
}

#[test]
fn dead_stores_to_made_up_variables_go() {
    let vt = table(vec![
        var(0, "this", object("A"), false),
        var(1, "var1_3", object("java/lang/Object"), true),
        var(2, "x", object("java/lang/Object"), false),
    ]);
    let mut s = block(vec![def(1, Some(Expr::This)), def(2, Some(Expr::This)), run("a")]);
    prune_dead_synth_stores(&mut s, &vt);
    let text = format!("{:?}", s);
    assert!(!text.contains("var: 1"), "{}", text);
    assert!(text.contains("var: 2"), "{}", text);
}

#[test]
fn made_up_variables_that_are_read_stay() {
    let vt = table(vec![var(0, "this", object("A"), false), var(1, "v", object("B"), true)]);
    let body = || block(vec![def(1, Some(Expr::This)), Stmt::Return(Some(local(1)))]);
    let mut s = body();
    prune_dead_synth_stores(&mut s, &vt);
    assert_eq!(s, body());
}

#[test]
fn variables_that_outlive_their_scope_move_to_the_top() {
    let vt = table(vec![
        var(0, "this", object("A"), false),
        var(1, "x", TypeRef::J(JType::Int), false),
    ]);
    let int = || typed(1, TypeRef::J(JType::Int));
    let mut s = block(vec![
        Stmt::Try {
            body: Box::new(block(vec![def(1, Some(number(1)))])),
            catches: vec![],
            finally: Some(Box::new(block(vec![run("f")]))),
        },
        Stmt::Return(Some(int())),
    ]);
    hoist_escaped_vars(&mut s, &vt);
    match &s {
        Stmt::Block(v) => {
            assert_eq!(
                v[0],
                Stmt::LocalDef { var: 1, init: Some(number(0)), is_final: false, force_type: true }
            );
            assert!(!format!("{:?}", v[1]).contains("LocalDef"));
            assert_eq!(v[2], Stmt::Return(Some(int())));
        }
        other => panic!("{:?}", other),
    }
    let once = format!("{:?}", s);
    hoist_escaped_vars(&mut s, &vt);
    assert_eq!(format!("{:?}", s), once);
}

#[test]
fn catch_alls_that_rethrow_become_finally() {
    let mut s = block(vec![Stmt::Try {
        body: Box::new(block(vec![run("work"), run("clean")])),
        catches: vec![catch(&[], 5, block(vec![run("clean"), Stmt::Throw(local(5))]))],
        finally: None,
    }]);
    dedupe_finally(&mut s);
    match &s {
        Stmt::Block(v) => match &v[0] {
            Stmt::Try { body, catches, finally } => {
                assert!(catches.is_empty());
                assert_eq!(**body, block(vec![run("work")]));
                assert!(format!("{:?}", finally).contains("clean"));
            }
            other => panic!("{:?}", other),
        },
        other => panic!("{:?}", other),
    }
}

#[test]
fn merged_objects_meet_their_constructor() {
    let raw = || Expr::New { cls: "E".to_string(), ty: object("E"), args: vec![], raw: true };
    let init = Expr::Method {
        owner: Some(Box::new(typed(7, object("E")))),
        cls: "E".to_string(),
        name: "<init>".to_string(),
        desc: MethodDescriptor { args: vec![JType::Int], ret: JType::Void },
        args: vec![number(3)],
        is_static: false,
        is_interface: false,
        is_special: true,
        is_super: false,
        is_dynamic: false,
        type_args: vec![],
    };
    let mut s = block(vec![
        def(7, Some(raw())),
        Stmt::ExprStmt(init),
        Stmt::Throw(typed(7, object("E"))),
    ]);
    fold_merged_new_inits(&mut s, &class());
    let text = format!("{:?}", s);
    assert!(!text.contains("<init>"), "{}", text);
    assert!(text.contains("Int(3)"), "{}", text);
    // Without a constructor call nothing changes.
    let mut s = block(vec![def(7, Some(raw()))]);
    fold_merged_new_inits(&mut s, &class());
    assert_eq!(s, block(vec![def(7, Some(raw()))]));
}

#[test]
fn variables_that_hold_this_are_this() {
    let mut s = block(vec![
        def(9, Some(Expr::This)),
        Stmt::ExprStmt(call(Some(local(9)), "go", vec![])),
    ]);
    fold_this_stack_vars(&mut s, &vec![9]);
    let text = format!("{:?}", s);
    assert!(!text.contains("var: 9"), "{}", text);
    // A variable that also holds something else stays.
    let body = || {
        block(vec![
            def(9, Some(Expr::This)),
            store(local(9), local(2)),
            Stmt::ExprStmt(call(Some(local(9)), "go", vec![])),
        ])
    };
    let mut s = body();
    fold_this_stack_vars(&mut s, &vec![9]);
    assert_eq!(s, body());
}

#[test]
fn object_returns_are_cast() {
    let mut s = Stmt::Return(Some(local(1)));
    cast_object_returns(&mut s, &JType::Object("B".to_string()));
    assert_eq!(
        s,
        Stmt::Return(Some(Expr::Cast { ty: object("B"), e: Box::new(local(1)) }))
    );
    let mut s = Stmt::Return(Some(local(1)));
    cast_object_returns(&mut s, &JType::Object("java/lang/Object".to_string()));
    assert_eq!(s, Stmt::Return(Some(local(1))));
}

#[test]
fn ints_are_cast_to_narrower_targets() {
    let vt = table(vec![var(0, "b", TypeRef::J(JType::Byte), false)]);
    let wide = || typed(1, TypeRef::J(JType::Int));
    let mut s = def(0, Some(wide()));
    cast_narrowing_assigns(&mut s, &vt);
    assert_eq!(
        s,
        def(0, Some(Expr::Cast { ty: TypeRef::J(JType::Byte), e: Box::new(wide()) }))
    );
    let mut s = def(0, Some(number(5)));
    cast_narrowing_assigns(&mut s, &vt);
    assert_eq!(s, def(0, Some(number(5))));
}

#[test]
fn boolean_returns_of_numeric_methods_stay_numbers() {
    let flag = || typed(1, TypeRef::J(JType::Boolean));
    let choice = || Expr::Cond {
        c: Box::new(flag()),
        t: Box::new(number(1)),
        f: Box::new(number(0)),
    };
    let mut s = Stmt::Return(Some(choice()));
    booleanize_deep_stmt_r(&mut s, true, &JType::Int);
    assert_eq!(s, Stmt::Return(Some(choice())));
    let byte = |i| Expr::Cast { ty: TypeRef::J(JType::Byte), e: Box::new(number(i)) };
    let mut s = Stmt::Return(Some(choice()));
    booleanize_deep_stmt_r(&mut s, true, &JType::Byte);
    assert_eq!(
        s,
        Stmt::Return(Some(Expr::Cond {
            c: Box::new(flag()),
            t: Box::new(byte(1)),
            f: Box::new(byte(0)),
        }))
    );
    let mut s = Stmt::Return(Some(choice()));
    booleanize_deep_stmt_r(&mut s, false, &JType::Boolean);
    assert_eq!(s, Stmt::Return(Some(flag())));
}

#[test]
fn casts_that_no_class_explains_stay() {
    let body = || Stmt::Return(Some(Expr::Cast { ty: object("B"), e: Box::new(local(1)) }));
    let mut s = body();
    strip_selftype_checkcasts(&mut s, &pool());
    assert_eq!(s, body());
}

#[test]
fn stores_that_feed_no_monitor_stay() {
    let vt = table(vec![var(0, "x", object("A"), false)]);
    let body = || block(vec![def(0, Some(Expr::This)), run("a")]);
    let mut s = body();
    drop_monitor_stores(&mut s, &vt);
    assert_eq!(s, body());
}

#[test]
fn made_up_variables_get_the_types_of_their_values() {
    let mut vt = table(vec![
        var(0, "this", object("A"), false),
        var(1, "var1", object("java/lang/Object"), true),
    ]);
    let mut s = block(vec![
        def(1, Some(Expr::Const(ConstVal::Str("x".to_string())))),
        Stmt::ExprStmt(call(Some(Expr::This), "use", vec![local(1)])),
    ]);
    infer_var_types(&mut vt, &mut s, &JType::Void, &class());
    assert_eq!(vt.vars[1].ty, object("java/lang/String"));
    assert!(format!("{:?}", s).contains("java/lang/String"));
}

#[test]
fn one_site_per_stored_value() {
    let vt = table(vec![var(0, "a", object("A"), false), var(1, "b", object("B"), false)]);
    let mut s = block(vec![def(0, Some(local(5))), store(local(1), local(6))]);
    let mut sites = Vec::new();
    cast_sites(&s, &vt, &pool(), &class(), &vec![], &mut sites);
    assert_eq!(sites.len(), 2);
    assert_eq!(sites[0].0, local(5));
    assert_eq!(sites[0].1, object("A"));
    let none = || CastFacts {
        polymorphic: false,
        cast_bound: None,
        cast_generic: false,
        cast_subtype: false,
        method_ret: None,
        generic: false,
        literal_conflict: false,
        bound_conflict: false,
    };
    let mut next: usize = 0;
    cast_generic_locals(&mut s, &vt, &pool(), &class(), &vec![], &vec![none(), none()], &mut next);
    assert_eq!(next, 2);
}
