use jcdc::builder::{BlockResult, Builder};
use jcdc::bytecode::{Instruction, Opcode, SwitchData};
use jcdc::classes::{ClassPool, Constant, PoolClass};
use jcdc::expr::{BinOp, ConcatPart, ConstVal, Expr};
use jcdc::sim::{SwitchTargets, Term};
use jcdc::stmt::Stmt;
use jcdc::types::{JType, MethodDescriptor, TypeRef};
use jcdc::var::{VarInfo, VarTable};
use std::collections::HashSet;

/// A class with a constant pool, and where its entries are.
struct Pool {
    constants: Vec<Constant>,
}

impl Pool {
    fn new() -> Pool {
        Pool { constants: vec![Constant::Unused] }
    }

    fn put(&mut self, c: Constant) -> u16 {
        self.constants.push(c);
        (self.constants.len() - 1) as u16
    }

    fn text(&mut self, s: &str) -> u16 {
        self.put(Constant::Utf8(s.to_string()))
    }

    fn class(&mut self, s: &str) -> u16 {
        let i = self.text(s);
        self.put(Constant::Class(i))
    }

    fn string(&mut self, s: &str) -> u16 {
        let i = self.text(s);
        self.put(Constant::Str(i))
    }

    fn method(&mut self, cls: &str, name: &str, desc: &str) -> u16 {
        let c = self.class(cls);
        let a = self.text(name);
        let b = self.text(desc);
        let nt = self.put(Constant::NameAndType(a, b));
        self.put(Constant::Methodref(c, nt))
    }

    fn field(&mut self, cls: &str, name: &str, desc: &str) -> u16 {
        let c = self.class(cls);
        let a = self.text(name);
        let b = self.text(desc);
        let nt = self.put(Constant::NameAndType(a, b));
        self.put(Constant::Fieldref(c, nt))
    }

    fn done(self) -> PoolClass {
        PoolClass {
            internal_name: "a/Own".to_string(),
            major_version: 52,
            access_flags: 0,
            super_class: 0,
            constants: self.constants,
            interfaces: vec![],
            fields: vec![],
            methods: vec![],
            attributes: vec![],
            bootstrap_methods: vec![],
        }
    }
}

fn number(i: i32) -> Expr {
    Expr::Const(ConstVal::Int(i))
}

fn text(s: &str) -> Expr {
    Expr::Const(ConstVal::Str(s.to_string()))
}

/// Instructions one after another, each of one byte.
fn code(list: Vec<(Opcode, i32)>) -> Vec<Instruction> {
    list.into_iter()
        .enumerate()
        .map(|(pc, (op, a))| Instruction {
            pc: pc as u16,
            size: 1,
            op,
            name: format!("{:?}", op),
            a,
            b: 0,
            switch_data: None,
            is_jump: false,
            is_terminal: false,
            targets: vec![],
        })
        .collect()
}

fn table() -> VarTable {
    let one = |id: u32, name: &str, ty: JType| VarInfo {
        id,
        slot: id as u16,
        name: name.to_string(),
        ty: TypeRef::J(ty),
        is_param: true,
        range_start: 0,
        range_end: u16::MAX,
        synthetic_name: false,
    };
    VarTable {
        vars: vec![
            one(0, "i", JType::Int),
            one(1, "a", JType::Long),
            one(2, "unused", JType::Int),
            one(3, "b", JType::Long),
        ],
        by_slot: (0..4).map(|i| vec![(0, u16::MAX, i)]).collect(),
        has_lvt: true,
        stack_vars: vec![],
        wide_stack_vars: HashSet::new(),
        handler_starts: vec![],
    }
}

fn local(var: u32, ty: JType) -> Expr {
    Expr::Local { var, ty: TypeRef::J(ty) }
}

fn build(c: &PoolClass, ins: &Vec<Instruction>) -> BlockResult {
    let pool = ClassPool { classes: vec![], resolved: vec![] };
    let vt = table();
    let d = MethodDescriptor { args: vec![], ret: JType::Void };
    let mut b = Builder::new(c, &pool, &vt, &d, true);
    match b.build_block(ins, vec![]) {
        Ok(r) => r,
        Err(e) => panic!("{}", e.0),
    }
}

#[test]
fn array_initializers_are_collected() {
    let c = Pool::new().done();
    let r = build(
        &c,
        &code(vec![
            (Opcode::Iconst2, 0),
            (Opcode::Newarray, 10),
            (Opcode::Dup, 0),
            (Opcode::Iconst0, 0),
            (Opcode::Iconst5, 0),
            (Opcode::Iastore, 0),
            (Opcode::Dup, 0),
            (Opcode::Iconst1, 0),
            (Opcode::Bipush, 7),
            (Opcode::Iastore, 0),
            (Opcode::Areturn, 0),
        ]),
    );
    assert!(r.stmts.is_empty(), "{:?}", r.stmts);
    match r.term {
        Term::Return(Some(Expr::NewArray { elem, init, .. })) => {
            assert_eq!(elem, TypeRef::J(JType::Int));
            assert_eq!(init, Some(vec![number(5), number(7)]));
        }
        other => panic!("{:?}", other),
    }
}

#[test]
fn increments_are_statements() {
    let c = Pool::new().done();
    let mut ins = code(vec![(Opcode::Iinc, 0)]);
    ins[0].b = 1;
    let r = build(&c, &ins);
    assert_eq!(r.stmts.len(), 1);
    match &r.stmts[0] {
        Stmt::ExprStmt(Expr::PostIncDec { e, delta, .. })
        | Stmt::ExprStmt(Expr::PreIncDec { e, delta, .. }) => {
            assert_eq!(**e, local(0, JType::Int));
            assert_eq!(*delta, 1);
        }
        other => panic!("{:?}", other),
    }
}

#[test]
fn a_load_before_an_increment_is_a_post_increment() {
    let c = Pool::new().done();
    let mut ins = code(vec![(Opcode::Iload0, 0), (Opcode::Iinc, 0), (Opcode::Ireturn, 0)]);
    ins[1].b = 1;
    let r = build(&c, &ins);
    match r.term {
        Term::Return(Some(Expr::PostIncDec { e, delta, .. })) => {
            assert_eq!(*e, local(0, JType::Int));
            assert_eq!(delta, 1);
        }
        other => panic!("{:?}", other),
    }
}

#[test]
fn an_increment_may_end_a_block() {
    let c = Pool::new().done();
    let mut ins = code(vec![(Opcode::Iload0, 0), (Opcode::Dup, 0), (Opcode::Iinc, 0)]);
    ins[2].b = 1;
    let r = build(&c, &ins);
    assert_eq!(r.out_stack, vec![local(0, JType::Int)]);
    match &r.stmts[0] {
        Stmt::ExprStmt(Expr::PostIncDec { e, delta, .. }) => {
            assert_eq!(**e, local(0, JType::Int));
            assert_eq!(*delta, 1);
        }
        other => panic!("{:?}", other),
    }
}

#[test]
fn long_comparisons_become_conditions() {
    let c = Pool::new().done();
    let r = build(
        &c,
        &code(vec![(Opcode::Lload1, 0), (Opcode::Lload3, 0), (Opcode::Lcmp, 0), (Opcode::IfGe, 9)]),
    );
    match r.term {
        Term::Cond { cond: Expr::Bin { op, l, r, .. } } => {
            assert_eq!(op, BinOp::Ge);
            assert_eq!(*l, local(1, JType::Long));
            assert_eq!(*r, local(3, JType::Long));
        }
        other => panic!("{:?}", other),
    }
}

#[test]
fn switches_keep_their_keys() {
    let c = Pool::new().done();
    let mut ins = code(vec![(Opcode::Iload0, 0), (Opcode::Lookupswitch, 0)]);
    ins[1].switch_data = Some(SwitchData::Lookup { pairs: vec![(3, 5), (-1, 7)] });
    let r = build(&c, &ins);
    match r.term {
        Term::Switch { selector, targets: SwitchTargets::Lookup { pairs } } => {
            assert_eq!(selector, local(0, JType::Int));
            assert_eq!(pairs, vec![(3, 5), (-1, 7)]);
        }
        other => panic!("{:?}", other),
    }
}

#[test]
fn objects_are_made_by_their_constructor() {
    let mut p = Pool::new();
    let cls = p.class("x/E");
    let init = p.method("x/E", "<init>", "(I)V");
    let c = p.done();
    let r = build(
        &c,
        &code(vec![
            (Opcode::New, cls as i32),
            (Opcode::Dup, 0),
            (Opcode::Iconst3, 0),
            (Opcode::Invokespecial, init as i32),
            (Opcode::Athrow, 0),
        ]),
    );
    assert!(r.stmts.is_empty(), "{:?}", r.stmts);
    match r.term {
        Term::Throw(Expr::New { cls, args, raw, .. }) => {
            assert_eq!(cls, "x/E");
            assert_eq!(args, vec![number(3)]);
            assert!(!raw);
        }
        other => panic!("{:?}", other),
    }
}

#[test]
fn string_builders_become_concatenations() {
    let sb = "java/lang/StringBuilder";
    let mut p = Pool::new();
    let cls = p.class(sb);
    let init = p.method(sb, "<init>", "()V");
    let add_text = p.method(sb, "append", "(Ljava/lang/String;)Ljava/lang/StringBuilder;");
    let add_int = p.method(sb, "append", "(I)Ljava/lang/StringBuilder;");
    let done = p.method(sb, "toString", "()Ljava/lang/String;");
    let hello = p.string("n=");
    let c = p.done();
    let r = build(
        &c,
        &code(vec![
            (Opcode::New, cls as i32),
            (Opcode::Dup, 0),
            (Opcode::Invokespecial, init as i32),
            (Opcode::Ldc, hello as i32),
            (Opcode::Invokevirtual, add_text as i32),
            (Opcode::Iload0, 0),
            (Opcode::Invokevirtual, add_int as i32),
            (Opcode::Invokevirtual, done as i32),
            (Opcode::Areturn, 0),
        ]),
    );
    match r.term {
        Term::Return(Some(Expr::StringConcat(parts))) => assert_eq!(
            parts,
            vec![ConcatPart::Str(text("n=")), ConcatPart::Str(local(0, JType::Int))]
        ),
        other => panic!("{:?}", other),
    }
}

#[test]
fn fields_and_calls_come_from_the_constant_pool() {
    let mut p = Pool::new();
    let f = p.field("a/Own", "count", "I");
    let m = p.method("x/Util", "twice", "(I)I");
    let c = p.done();
    let r = build(
        &c,
        &code(vec![
            (Opcode::Getstatic, f as i32),
            (Opcode::Invokestatic, m as i32),
            (Opcode::Putstatic, f as i32),
        ]),
    );
    assert_eq!(r.stmts.len(), 1);
    match &r.stmts[0] {
        Stmt::ExprStmt(Expr::Assign { target, value, .. }) => {
            match &**target {
                Expr::Field { name, is_static, ty, .. } => {
                    assert_eq!(name, "count");
                    assert!(*is_static);
                    assert_eq!(*ty, TypeRef::J(JType::Int));
                }
                other => panic!("{:?}", other),
            }
            match &**value {
                Expr::Method { cls, name, args, is_static, .. } => {
                    assert_eq!(cls, "x/Util");
                    assert_eq!(name, "twice");
                    assert!(*is_static);
                    assert_eq!(args.len(), 1);
                }
                other => panic!("{:?}", other),
            }
        }
        other => panic!("{:?}", other),
    }
}

#[test]
fn casts_and_tests_name_their_class() {
    let mut p = Pool::new();
    let cls = p.class("x/E");
    let c = p.done();
    let r = build(&c, &code(vec![(Opcode::AconstNull, 0), (Opcode::Instanceof, cls as i32), (Opcode::Ireturn, 0)]));
    match r.term {
        Term::Return(Some(Expr::InstanceOf { ty, .. })) => {
            assert_eq!(ty, TypeRef::J(JType::Object("x/E".to_string())));
        }
        other => panic!("{:?}", other),
    }
    let r = build(&c, &code(vec![(Opcode::AconstNull, 0), (Opcode::Checkcast, cls as i32), (Opcode::Areturn, 0)]));
    match r.term {
        Term::Return(Some(Expr::Cast { ty, .. })) => {
            assert_eq!(ty, TypeRef::J(JType::Object("x/E".to_string())));
        }
        other => panic!("{:?}", other),
    }
}

#[test]
fn monitors_are_statements() {
    let c = Pool::new().done();
    let r = build(
        &c,
        &code(vec![
            (Opcode::AconstNull, 0),
            (Opcode::Monitorenter, 0),
            (Opcode::AconstNull, 0),
            (Opcode::Monitorexit, 0),
        ]),
    );
    assert_eq!(
        r.stmts,
        vec![
            Stmt::MonitorEnter(Expr::Const(ConstVal::Null)),
            Stmt::MonitorExit(Expr::Const(ConstVal::Null)),
        ]
    );
}
