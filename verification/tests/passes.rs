use jcdc::asserts::restore_asserts;
use jcdc::cleanup::cleanup;
use jcdc::declarations::dedupe_declarations;
use jcdc::escapes::ensure_declared;
use jcdc::expr::{AssignOp, BinOp, ConstVal, Expr};
use jcdc::finallys::dedupe_finally;
use jcdc::inflight::prune_finally_rethrows;
use jcdc::labels::{demote_undefined_label_jumps, prune_post_loop_label_breaks};
use jcdc::monitors::{reconstruct_synchronized, strip_monitors_in_sync};
use jcdc::naming::disambiguate_nested_locals;
use jcdc::rotate::rotate_empty_then;
use jcdc::stack_vars::hoist_stack_vars;
use jcdc::stmt::{Catch, Stmt};
use jcdc::termination::{prune_dead_breaks, prune_unreachable};
use jcdc::twr11::twr_j11;
use jcdc::twr7::twr_j7;
use jcdc::types::{JType, MethodDescriptor, TypeRef};
use jcdc::var::{VarInfo, VarTable};
use std::collections::HashSet;

fn number(i: i32) -> Expr {
    Expr::Const(ConstVal::Int(i))
}

fn null() -> Expr {
    Expr::Const(ConstVal::Null)
}

fn local(var: u32) -> Expr {
    Expr::Local { var, ty: TypeRef::J(JType::Object("java/lang/Object".to_string())) }
}

fn call(owner: Expr, name: &str) -> Expr {
    Expr::Method {
        owner: Some(Box::new(owner)),
        cls: "A".to_string(),
        name: name.to_string(),
        desc: MethodDescriptor { args: vec![], ret: JType::Void },
        args: vec![],
        is_static: false,
        is_interface: false,
        is_special: false,
        is_super: false,
        is_dynamic: false,
        type_args: vec![],
    }
}

fn run(name: &str) -> Stmt {
    Stmt::ExprStmt(call(Expr::This, name))
}

fn def(var: u32, init: Option<Expr>) -> Stmt {
    Stmt::LocalDef { var, init, is_final: false, force_type: false }
}

fn store(var: u32, value: Expr) -> Stmt {
    Stmt::ExprStmt(Expr::Assign {
        target: Box::new(local(var)),
        op: AssignOp::Plain,
        value: Box::new(value),
    })
}

fn block(v: Vec<Stmt>) -> Stmt {
    Stmt::Block(v)
}

fn if_then(cond: Expr, then_stmt: Stmt) -> Stmt {
    Stmt::If { cond, then_stmt: Box::new(then_stmt), else_stmt: None }
}

fn var(id: u32, name: &str) -> VarInfo {
    VarInfo {
        id,
        slot: id as u16,
        name: name.to_string(),
        ty: TypeRef::J(JType::Object("java/lang/Object".to_string())),
        is_param: false,
        range_start: 0,
        range_end: u16::MAX,
        synthetic_name: false,
    }
}

fn table(names: &[&str]) -> VarTable {
    VarTable {
        vars: names.iter().enumerate().map(|(i, n)| var(i as u32, n)).collect(),
        by_slot: vec![],
        has_lvt: true,
        stack_vars: vec![],
        wide_stack_vars: HashSet::new(),
        handler_starts: vec![],
    }
}

#[test]
fn cleanup_flattens_and_drops() {
    let mut s = block(vec![block(vec![]), block(vec![run("a"), block(vec![run("b")])]), run("c")]);
    cleanup(&mut s);
    assert_eq!(s, block(vec![run("a"), run("b"), run("c")]));
    let before = format!("{:?}", s);
    cleanup(&mut s);
    assert_eq!(format!("{:?}", s), before);
}

#[test]
fn cleanup_keeps_statements_in_order() {
    let bare = |body: Stmt| Stmt::Try { body: Box::new(body), catches: vec![], finally: None };
    let mut s = block(vec![
        run("a"),
        bare(block(vec![run("b"), block(vec![run("c")])])),
        if_then(local(1), block(vec![block(vec![]), bare(run("d")), run("e")])),
        block(vec![block(vec![run("f")]), Stmt::Return(None)]),
    ]);
    cleanup(&mut s);
    let branch = if_then(local(1), block(vec![run("d"), run("e")]));
    assert_eq!(
        s,
        block(vec![run("a"), run("b"), run("c"), branch, run("f"), Stmt::Return(None)])
    );
}

#[test]
fn nothing_stays_after_a_return() {
    let mut s = block(vec![run("a"), Stmt::Return(None), run("b")]);
    prune_unreachable(&mut s);
    assert_eq!(s, block(vec![run("a"), Stmt::Return(None)]));
}

#[test]
fn nothing_stays_after_branches_that_both_leave() {
    let leave = Stmt::If {
        cond: local(1),
        then_stmt: Box::new(block(vec![Stmt::Return(None)])),
        else_stmt: Some(Box::new(block(vec![Stmt::Throw(local(2))]))),
    };
    let again = Stmt::If {
        cond: local(1),
        then_stmt: Box::new(block(vec![Stmt::Return(None)])),
        else_stmt: Some(Box::new(block(vec![Stmt::Throw(local(2))]))),
    };
    let mut s = block(vec![leave, run("b")]);
    prune_unreachable(&mut s);
    assert_eq!(s, block(vec![again]));
}

#[test]
fn dead_breaks_go() {
    let mut s = Stmt::DoWhile {
        body: Box::new(block(vec![run("a"), Stmt::Break(None)])),
        cond: number(0),
    };
    prune_dead_breaks(&mut s);
    assert_eq!(s, Stmt::DoWhile { body: Box::new(block(vec![run("a")])), cond: number(0) });
}

#[test]
fn second_declarations_become_assignments() {
    let mut s = block(vec![def(1, Some(number(1))), def(1, Some(number(2))), def(1, None)]);
    dedupe_declarations(&mut s);
    match &s {
        Stmt::Block(v) => {
            assert_eq!(v.len(), 3);
            assert_eq!(v[0], def(1, Some(number(1))));
            assert!(matches!(&v[1], Stmt::ExprStmt(Expr::Assign { .. })));
            assert_eq!(v[2], block(vec![]));
        }
        other => panic!("{:?}", other),
    }
    let once = format!("{:?}", s);
    dedupe_declarations(&mut s);
    assert_eq!(format!("{:?}", s), once);
}

#[test]
fn scopes_of_branches_end_with_them() {
    let mut s = block(vec![
        if_then(local(0), block(vec![def(1, None)])),
        def(1, None),
    ]);
    let before = format!("{:?}", s);
    dedupe_declarations(&mut s);
    assert_eq!(format!("{:?}", s), before);
}

#[test]
fn used_variables_get_declared() {
    let vt = table(&["a", "b"]);
    let mut s = block(vec![store(1, number(3))]);
    ensure_declared(&vt, &mut s);
    match &s {
        Stmt::Block(v) => {
            assert_eq!(v.len(), 2);
            assert_eq!(
                v[0],
                Stmt::LocalDef { var: 1, init: Some(null()), is_final: false, force_type: true }
            );
            assert_eq!(v[1], store(1, number(3)));
        }
        other => panic!("{:?}", other),
    }
    let once = format!("{:?}", s);
    ensure_declared(&vt, &mut s);
    assert_eq!(format!("{:?}", s), once);
}

#[test]
fn stack_variables_are_declared_before_use() {
    let mut s = block(vec![if_then(local(0), block(vec![def(5, Some(number(1)))])), run("x")]);
    hoist_stack_vars(&mut s, &vec![5]);
    match &s {
        Stmt::Block(v) => {
            assert_eq!(v.len(), 3);
            assert!(matches!(&v[0], Stmt::LocalDef { var: 5, .. }));
        }
        other => panic!("{:?}", other),
    }
}

#[test]
fn breaks_to_labels_that_are_not_there_lose_them() {
    let mut s = Stmt::While {
        cond: local(0),
        body: Box::new(block(vec![if_then(local(1), block(vec![Stmt::Break(Some("gone".to_string()))]))])),
    };
    demote_undefined_label_jumps(&mut s);
    assert!(!format!("{:?}", s).contains("gone"));
}

#[test]
fn defined_labels_keep_their_jumps() {
    let mut s = Stmt::Labeled {
        label: "out".to_string(),
        body: Box::new(Stmt::While {
            cond: local(0),
            body: Box::new(block(vec![
                if_then(local(1), block(vec![Stmt::Break(Some("out".to_string()))])),
                run("x"),
            ])),
        }),
    };
    demote_undefined_label_jumps(&mut s);
    assert!(format!("{:?}", s).contains("Break(Some(\"out\"))"));
    prune_post_loop_label_breaks(&mut s);
    assert!(format!("{:?}", s).contains("Break(Some(\"out\"))"));
}

#[test]
fn monitors_become_synchronized_blocks() {
    let mut s = block(vec![
        Stmt::MonitorEnter(local(1)),
        Stmt::Try {
            body: Box::new(block(vec![run("work"), Stmt::MonitorExit(local(1))])),
            catches: vec![Catch {
                exc: vec![],
                var: 2,
                var_name: None,
                body: Box::new(block(vec![Stmt::MonitorExit(local(1)), Stmt::Throw(local(2))])),
            }],
            finally: None,
        },
    ]);
    reconstruct_synchronized(&mut s);
    strip_monitors_in_sync(&mut s);
    let text = format!("{:?}", s);
    assert!(text.contains("Synchronized"), "{}", text);
    assert!(!text.contains("MonitorEnter"), "{}", text);
    assert!(!text.contains("MonitorExit"), "{}", text);
}

#[test]
fn guards_with_an_empty_branch_take_in_the_exit() {
    let guard = Stmt::If {
        cond: local(0),
        then_stmt: Box::new(block(vec![])),
        else_stmt: Some(Box::new(block(vec![run("x")]))),
    };
    let mut s = block(vec![guard, Stmt::Return(None)]);
    rotate_empty_then(&mut s);
    match &s {
        Stmt::Block(v) => match &v[0] {
            Stmt::If { then_stmt, .. } => assert_eq!(**then_stmt, Stmt::Return(None)),
            other => panic!("{:?}", other),
        },
        other => panic!("{:?}", other),
    }
}

#[test]
fn assertions_are_restored() {
    let disabled = Expr::Field {
        owner: None,
        cls: "A".to_string(),
        name: "$assertionsDisabled".to_string(),
        ty: TypeRef::J(JType::Boolean),
        is_static: true,
    };
    let enabled = Expr::Un { op: jcdc::expr::UnOp::Not, e: Box::new(disabled) };
    let error = Expr::New {
        cls: "java/lang/AssertionError".to_string(),
        ty: TypeRef::J(JType::Object("java/lang/AssertionError".to_string())),
        args: vec![],
        raw: false,
    };
    let check = Stmt::If {
        cond: local(1),
        then_stmt: Box::new(block(vec![])),
        else_stmt: Some(Box::new(block(vec![Stmt::Throw(error)]))),
    };
    let mut s = block(vec![if_then(enabled, block(vec![check]))]);
    restore_asserts(&mut s);
    match &s {
        Stmt::Block(v) => assert_eq!(v[0], Stmt::Assert { cond: local(1), msg: None }),
        other => panic!("{:?}", other),
    }
}

#[test]
fn a_guarded_close_becomes_a_resource() {
    let close = if_then(
        Expr::Bin {
            op: BinOp::RefNe,
            l: Box::new(local(1)),
            r: Box::new(null()),
            ty: None,
        },
        block(vec![Stmt::ExprStmt(call(local(1), "close"))]),
    );
    let mut s = block(vec![
        def(1, Some(call(Expr::This, "open"))),
        def(2, Some(null())),
        Stmt::Try {
            body: Box::new(block(vec![Stmt::ExprStmt(call(local(1), "read"))])),
            catches: vec![Catch {
                exc: vec!["java/lang/Throwable".to_string()],
                var: 3,
                var_name: None,
                body: Box::new(block(vec![store(2, local(3)), Stmt::Throw(local(3))])),
            }],
            finally: Some(Box::new(block(vec![close]))),
        },
    ]);
    twr_j7(&mut s);
    assert_eq!(
        s,
        block(vec![Stmt::TryWithResources {
            resources: vec![def(1, Some(call(Expr::This, "open")))],
            body: Box::new(block(vec![Stmt::ExprStmt(call(local(1), "read"))])),
            catches: vec![],
            finally: None,
        }])
    );
}

#[test]
fn every_resource_of_a_block_loses_its_scaffolding() {
    let close = |v: u32| {
        if_then(
            Expr::Bin {
                op: BinOp::RefNe,
                l: Box::new(local(v)),
                r: Box::new(null()),
                ty: None,
            },
            block(vec![Stmt::ExprStmt(call(local(v), "close"))]),
        )
    };
    let opened = |v: u32| def(v, Some(call(Expr::This, "open")));
    let read = |v: u32| Box::new(block(vec![Stmt::ExprStmt(call(local(v), "read"))]));
    let guarded = |v: u32| Stmt::Try {
        body: read(v),
        catches: vec![],
        finally: Some(Box::new(block(vec![close(v)]))),
    };
    let resource = |v: u32| Stmt::TryWithResources {
        resources: vec![opened(v)],
        body: read(v),
        catches: vec![],
        finally: None,
    };
    let mut s = block(vec![
        opened(1),
        guarded(1),
        close(1),
        run("between"),
        opened(2),
        guarded(2),
        close(2),
        run("after"),
    ]);
    twr_j7(&mut s);
    assert_eq!(s, block(vec![resource(1), run("between"), resource(2), run("after")]));
}

#[test]
fn a_resource_that_is_used_later_stays_a_local() {
    let body = || {
        block(vec![
            def(1, Some(call(Expr::This, "open"))),
            Stmt::Try {
                body: Box::new(block(vec![run("x")])),
                catches: vec![],
                finally: Some(Box::new(block(vec![Stmt::ExprStmt(call(local(1), "close"))]))),
            },
            Stmt::Return(Some(local(1))),
        ])
    };
    let mut s = body();
    twr_j7(&mut s);
    assert_eq!(s, body());
}

#[test]
fn bodies_without_handlers_are_left_alone() {
    let body = || block(vec![run("a"), Stmt::Return(None)]);
    let mut s = body();
    twr_j11(&mut s);
    dedupe_finally(&mut s);
    prune_finally_rethrows(&mut s);
    assert_eq!(s, body());
}

#[test]
fn nested_locals_get_names_of_their_own() {
    let mut vt = table(&["x", "x"]);
    let s = block(vec![def(0, Some(number(1))), block(vec![def(1, Some(number(2))), store(1, local(0))])]);
    disambiguate_nested_locals(&mut vt, &s);
    assert_eq!(vt.vars[0].name, "x");
    assert_ne!(vt.vars[1].name, "x");
}

#[test]
fn siblings_may_share_a_name() {
    let mut vt = table(&["x", "x"]);
    let s = block(vec![block(vec![def(0, Some(number(1)))]), block(vec![def(1, Some(number(2)))])]);
    disambiguate_nested_locals(&mut vt, &s);
    assert_eq!(vt.vars[0].name, "x");
    assert_eq!(vt.vars[1].name, "x");
}
