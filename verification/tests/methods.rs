use jcdc::bytecode::{Instruction, Opcode};
use jcdc::classes::{
    ClassPool, Constant, Member, PoolClass, ACC_ABSTRACT, ACC_FINAL, ACC_NATIVE, ACC_STATIC,
};
use jcdc::expr::{AssignOp, ConstVal, Expr, LambdaExpr, LambdaKind};
use jcdc::method::{
    build_blocks, failed_blocks, final_fields, finish, read_head, refine, Code, MethodBody,
    MAX_DEPTH,
};
use jcdc::nested::{find_impl, lift_captures, name_nested, settle_nested};
use jcdc::sim::Term;
use jcdc::stmt::Stmt;
use jcdc::types::{GType, JType, MethodDescriptor, TypeRef};
use jcdc::var::{VarInfo, VarTable};
use std::collections::HashSet;

fn text(s: &str) -> Constant {
    Constant::Utf8(s.to_string())
}

fn method(access_flags: u16, name_index: u16, descriptor_index: u16) -> Member {
    Member { access_flags, name_index, descriptor_index, attributes: vec![], local_ranges: vec![] }
}

fn class() -> PoolClass {
    PoolClass {
        internal_name: "a/Own".to_string(),
        major_version: 52,
        access_flags: 0,
        super_class: 0,
        constants: vec![
            Constant::Unused,
            text("pick"),
            text("(I)I"),
            text("(Q)I"),
            text("<init>"),
            text("()V"),
            text("first"),
            text("second"),
        ],
        interfaces: vec![],
        fields: vec![method(ACC_FINAL, 6, 2), method(0, 7, 2), method(ACC_FINAL, 7, 2)],
        methods: vec![
            method(ACC_STATIC, 1, 2),
            method(ACC_STATIC, 1, 3),
            method(ACC_ABSTRACT, 1, 2),
            method(ACC_NATIVE, 1, 2),
            method(ACC_STATIC, 1, 0),
            method(0, 4, 5),
        ],
        attributes: vec![],
        bootstrap_methods: vec![],
    }
}

fn pool() -> ClassPool {
    ClassPool { classes: vec![], resolved: vec![] }
}

fn number(i: i32) -> Expr {
    Expr::Const(ConstVal::Int(i))
}

fn var(id: u32, name: &str, is_param: bool) -> VarInfo {
    VarInfo {
        id,
        slot: id as u16,
        name: name.to_string(),
        ty: TypeRef::J(JType::Int),
        is_param,
        range_start: 0,
        range_end: u16::MAX,
        synthetic_name: false,
    }
}

fn table(vars: Vec<VarInfo>) -> VarTable {
    let by_slot = vars.iter().map(|v| vec![(0, u16::MAX, v.id)]).collect();
    VarTable {
        vars,
        by_slot,
        has_lvt: true,
        stack_vars: vec![],
        wide_stack_vars: HashSet::new(),
        handler_starts: vec![],
    }
}

fn ins(pc: u16, size: u16, op: Opcode, a: i32) -> Instruction {
    Instruction {
        pc,
        size,
        op,
        name: format!("{:?}", op),
        a,
        b: 0,
        switch_data: None,
        is_jump: false,
        is_terminal: false,
        targets: vec![],
    }
}

#[test]
fn heads_of_methods() {
    let c = class();
    let d = read_head(&c, 0, 1, true).ok().unwrap().unwrap();
    assert_eq!(d.args, vec![JType::Int]);
    assert_eq!(d.ret, JType::Int);
    assert!(read_head(&c, 2, 1, false).ok().unwrap().is_none());
    assert!(read_head(&c, 3, 1, false).ok().unwrap().is_none());
}

#[test]
fn methods_that_cannot_be_decompiled() {
    let c = class();
    assert_eq!(read_head(&c, 0, 1, false), Err("missing Code attribute".to_string()));
    assert_eq!(read_head(&c, 1, 1, true), Err("bad descriptor (Q)I".to_string()));
    assert_eq!(read_head(&c, 4, 1, true), Err("missing descriptor".to_string()));
    assert!(read_head(&c, 0, MAX_DEPTH, true).is_ok());
    assert_eq!(
        read_head(&c, 0, MAX_DEPTH + 1, true),
        Err("decompile_method recursion depth 65 at a/Own.pick".to_string())
    );
}

#[test]
fn final_fields_by_name() {
    assert_eq!(final_fields(&class()), vec!["first".to_string(), "second".to_string()]);
}

/// `static int pick(int n) { return n != 0 ? 1 : 2; }`
fn choice() -> Code {
    let jump = |pc: u16, op: Opcode, target: u16| Instruction {
        is_jump: true,
        targets: vec![target],
        ..ins(pc, 3, op, target as i32)
    };
    Code {
        instructions: vec![
            ins(0, 1, Opcode::Iload0, 0),
            jump(1, Opcode::Ifeq, 8),
            ins(4, 1, Opcode::Iconst1, 0),
            jump(5, Opcode::Goto, 9),
            ins(8, 1, Opcode::Iconst2, 0),
            Instruction { is_terminal: true, ..ins(9, 1, Opcode::Ireturn, 0) },
        ],
        code_len: 10,
        max_locals: 1,
        exception_table: vec![],
    }
}

#[test]
fn a_choice_becomes_a_conditional() {
    let c = class();
    let d = MethodDescriptor { args: vec![JType::Int], ret: JType::Int };
    let vt = table(vec![var(0, "n", true)]);
    let (cfg, flow) = build_blocks(&c, &pool(), &d, true, &choice(), vt, 0);
    assert_eq!(cfg.len(), 4);
    assert_eq!(failed_blocks(&flow), 0);
    match &flow.results[3].term {
        Term::Return(Some(Expr::Cond { t, f, .. })) => {
            let mut arms = vec![format!("{:?}", t), format!("{:?}", f)];
            arms.sort();
            assert_eq!(arms, vec![format!("{:?}", number(1)), format!("{:?}", number(2))]);
        }
        other => panic!("{:?}", other),
    }
}

#[test]
fn numbers_of_stack_slots_only_name_them() {
    let c = class();
    let d = MethodDescriptor { args: vec![JType::Int], ret: JType::Int };
    let jump = |pc: u16, op: Opcode, target: u16| Instruction {
        is_jump: true,
        targets: vec![target],
        ..ins(pc, 3, op, target as i32)
    };
    let code = || Code {
        instructions: vec![
            ins(0, 1, Opcode::Iload0, 0),
            jump(1, Opcode::Ifeq, 11),
            Instruction { b: 5, ..ins(4, 3, Opcode::Iinc, 0) },
            ins(7, 1, Opcode::Iconst1, 0),
            jump(8, Opcode::Goto, 12),
            ins(11, 1, Opcode::Iconst2, 0),
            Instruction { is_terminal: true, ..ins(12, 1, Opcode::Ireturn, 0) },
        ],
        code_len: 13,
        max_locals: 1,
        exception_table: vec![],
    };
    let vt = || table(vec![var(0, "n", true)]);
    let (_, a) = build_blocks(&c, &pool(), &d, true, &code(), vt(), 3);
    let (_, b) = build_blocks(&c, &pool(), &d, true, &code(), vt(), 40);
    assert_eq!(format!("{:?}", a.results), format!("{:?}", b.results));
    assert_eq!(a.vt.vars.len(), b.vt.vars.len());
    assert_eq!(a.vt.vars[1].name, "stack3");
    assert_eq!(b.vt.vars[1].name, "stack40");
}

#[test]
fn a_method_becomes_the_same_whatever_came_before() {
    let c = class();
    let p = pool();
    let local = |var: u32| Expr::Local { var, ty: TypeRef::J(JType::Int) };
    let set = |i: i32| Stmt::ExprStmt(Expr::Assign {
        target: Box::new(local(2)),
        op: AssignOp::Plain,
        value: Box::new(number(i)),
    });
    let draft = || Stmt::Block(vec![
        Stmt::If {
            cond: local(0),
            then_stmt: Box::new(Stmt::Block(vec![set(1)])),
            else_stmt: Some(Box::new(Stmt::Block(vec![set(2)]))),
        },
        Stmt::LocalDef { var: 1, init: Some(local(2)), is_final: false, force_type: true },
        Stmt::Return(Some(local(1))),
    ]);
    let decompile = |slot: &str| {
        let d = MethodDescriptor { args: vec![JType::Int], ret: JType::Int };
        let made_up = VarInfo { synthetic_name: true, ..var(2, slot, false) };
        let mut vt = table(vec![var(0, "n", true), var(1, "stack", false), made_up]);
        vt.stack_vars = vec![2];
        let mut body = draft();
        refine(&mut body, &mut vt, &c, &p, &d.ret);
        finish(&c, &p, 0, d, body, vt, &vec![], &vec![], 0)
    };
    let a = decompile("stack3");
    let b = decompile("stack40");
    assert_eq!(a.body, b.body);
    let names = |m: &MethodBody| m.vt.vars.iter().map(|v| v.name.clone()).collect::<Vec<_>>();
    assert_eq!(names(&a), vec!["n", "stack", "stack3"]);
    assert_eq!(names(&b), vec!["n", "stack", "stack40"]);
    let types = |m: &MethodBody| m.vt.vars.iter().map(|v| format!("{:?}", v.ty)).collect::<Vec<_>>();
    assert_eq!(types(&a), types(&b));
}

#[test]
fn a_broken_block_leaves_a_comment() {
    let c = class();
    let d = MethodDescriptor { args: vec![], ret: JType::Void };
    let code = Code {
        instructions: vec![
            ins(0, 1, Opcode::Pop, 0),
            Instruction { is_terminal: true, ..ins(1, 1, Opcode::Return, 0) },
        ],
        code_len: 2,
        max_locals: 0,
        exception_table: vec![],
    };
    let (_, flow) = build_blocks(&c, &pool(), &d, true, &code, table(vec![]), 0);
    assert_eq!(failed_blocks(&flow), 1);
    assert_eq!(
        flow.results[0].stmts,
        vec![Stmt::Comment("$JCDC-BLOCK-ERROR: stack underflow".to_string())]
    );
}

#[test]
fn a_block_that_is_built_in_the_end_has_not_failed() {
    // The block at 1 is looked at before the one that leaves it a value.
    let c = class();
    let d = MethodDescriptor { args: vec![], ret: JType::Void };
    let leave = |pc: u16| Instruction { is_terminal: true, ..ins(pc, 1, Opcode::Return, 0) };
    let jump = |pc: u16, target: u16| Instruction {
        is_jump: true,
        is_terminal: true,
        targets: vec![target],
        ..ins(pc, 3, Opcode::Goto, target as i32)
    };
    let code = Code {
        instructions: vec![
            leave(0),
            ins(1, 1, Opcode::Pop, 0),
            jump(2, 9),
            ins(5, 1, Opcode::Iconst1, 0),
            jump(6, 1),
            leave(9),
        ],
        code_len: 10,
        max_locals: 0,
        exception_table: vec![],
    };
    let (cfg, flow) = build_blocks(&c, &pool(), &d, true, &code, table(vec![]), 0);
    assert_eq!(cfg.blocks.len(), 4);
    assert!(flow.results[1].stmts.is_empty());
    assert_eq!(failed_blocks(&flow), 0);
}

#[test]
fn a_body_is_refined_and_finished() {
    let c = class();
    let p = pool();
    let d = MethodDescriptor { args: vec![JType::Int], ret: JType::Int };
    let mut body = Stmt::Block(vec![
        Stmt::Block(vec![]),
        Stmt::Block(vec![Stmt::Return(Some(number(1)))]),
        Stmt::Return(Some(number(2))),
    ]);
    let mut vt = table(vec![var(0, "n", true)]);
    refine(&mut body, &mut vt, &c, &p, &d.ret);
    let m = finish(&c, &p, 0, d, body, vt, &vec![], &vec![], 0);
    assert_eq!(m.body, Stmt::Block(vec![Stmt::Return(Some(number(1)))]));
    assert_eq!(m.vt.vars.len(), 1);
    assert_eq!(m.desc.ret, JType::Int);
}

#[test]
fn failed_blocks_are_announced() {
    let c = class();
    let p = pool();
    let d = MethodDescriptor { args: vec![], ret: JType::Void };
    let body = Stmt::Block(vec![Stmt::Return(None)]);
    let m = finish(&c, &p, 5, d, body, table(vec![]), &vec![], &vec![], 2);
    match m.body {
        Stmt::Block(v) => assert_eq!(
            v[0],
            Stmt::Comment("$JCDC: 2 block(s) failed to decompile".to_string())
        ),
        other => panic!("{:?}", other),
    }
}

fn lambda(captures: Vec<Expr>, sam: usize) -> LambdaExpr {
    let desc = || MethodDescriptor { args: vec![JType::Int], ret: JType::Int };
    LambdaExpr {
        kind: LambdaKind::Lambda,
        sam_name: "apply".to_string(),
        sam_desc: desc(),
        inst_sam_desc: None,
        impl_owner: "a/Own".to_string(),
        impl_name: "pick".to_string(),
        impl_desc: desc(),
        impl_is_static: true,
        captures,
        param_names: (0..sam).map(|i| format!("p{}", i)).collect(),
        ref_receiver: None,
        capture_snaps: vec![],
    }
}

#[test]
fn lambdas_lead_to_their_methods() {
    let p = ClassPool { classes: vec![class()], resolved: vec![] };
    let l = lambda(vec![], 1);
    let (c, i) = find_impl(&p, &l).unwrap();
    assert_eq!(c.internal_name, "a/Own");
    assert_eq!(i, 0);
    assert!(find_impl(&pool(), &l).is_none());
}

#[test]
fn captured_parameters_are_called_what_they_capture() {
    let outer = table(vec![var(0, "x$1", false)]);
    let mut vt = table(vec![var(0, "x", true), var(1, "t", true)]);
    let mut l = lambda(vec![Expr::Local { var: 0, ty: TypeRef::J(JType::Int) }], 1);
    name_nested(&l, &mut vt, &outer);
    assert_eq!(vt.vars[0].name, "x$1");
    assert_eq!(vt.vars[1].name, "t");
    l.capture_snaps = vec![(0, 0, "x$cap0".to_string())];
    name_nested(&l, &mut vt, &outer);
    assert_eq!(vt.vars[0].name, "x$cap0");
}

#[test]
fn captured_parameters_get_generic_types() {
    let e = || TypeRef::G(GType::TypeVar("E".to_string()));
    let mut vt = table(vec![var(0, "x", true), var(1, "t", true)]);
    let l = lambda(vec![Expr::Local { var: 0, ty: e() }], 1);
    let mut body = Stmt::Return(Some(Expr::Local { var: 0, ty: TypeRef::J(JType::Int) }));
    lift_captures(&l, &mut vt, &mut body);
    assert_eq!(vt.vars[0].ty, e());
    assert_eq!(vt.vars[1].ty, TypeRef::J(JType::Int));
    assert_eq!(body, Stmt::Return(Some(Expr::Local { var: 0, ty: e() })));
    settle_nested(&mut body);
    assert_eq!(body, Stmt::Return(Some(Expr::Local { var: 0, ty: e() })));
}
