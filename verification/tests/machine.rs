use jcdc::block::Cfg;
use jcdc::builder::Builder;
use jcdc::bytecode::{Instruction, Opcode};
use jcdc::classes::{ClassPool, Constant, PoolClass};
use jcdc::expr::{BinOp, ConstVal, Expr};
use jcdc::forward::{find_forwards, Forwards};
use jcdc::graph::{complete, immediate_dominators, reverse_postorder};
use jcdc::sim::{do_dup2, do_pop, do_pop2, do_swap, failure, Sim, Term};
use jcdc::stmt::Stmt;
use jcdc::types::{JType, MethodDescriptor, TypeRef};
use jcdc::var::{VarInfo, VarTable};
use std::collections::HashSet;

fn class() -> PoolClass {
    PoolClass {
        internal_name: "A".to_string(),
        major_version: 52,
        access_flags: 0,
        super_class: 0,
        constants: vec![
            Constant::Unused,
            Constant::Utf8("java/io/IOException".to_string()),
            Constant::Class(1),
            Constant::Utf8("hello".to_string()),
            Constant::Str(3),
        ],
        interfaces: vec![],
        fields: vec![],
        methods: vec![],
        attributes: vec![],
        bootstrap_methods: vec![],
    }
}

fn pool() -> ClassPool {
    ClassPool { classes: vec![], resolved: vec![] }
}

fn ins(pc: u16, size: u16, op: Opcode, a: i32) -> Instruction {
    Instruction {
        pc,
        size,
        op,
        name: format!("{:?}", op),
        a,
        b: 0,
        switch_data: None,
        is_jump: false,
        is_terminal: false,
        targets: vec![],
    }
}

fn jump(pc: u16, op: Opcode, target: u16) -> Instruction {
    Instruction {
        is_jump: true,
        targets: vec![target],
        ..ins(pc, 3, op, target as i32)
    }
}

fn ret(pc: u16, op: Opcode) -> Instruction {
    Instruction { is_terminal: true, ..ins(pc, 1, op, 0) }
}

fn number(i: i32) -> Expr {
    Expr::Const(ConstVal::Int(i))
}

fn table() -> VarTable {
    let one = |id: u32, name: &str, is_param: bool| VarInfo {
        id,
        slot: id as u16,
        name: name.to_string(),
        ty: TypeRef::J(JType::Int),
        is_param,
        range_start: 0,
        range_end: u16::MAX,
        synthetic_name: false,
    };
    VarTable {
        vars: vec![one(0, "n", true), one(1, "m", false)],
        by_slot: vec![vec![(0, u16::MAX, 0)], vec![(0, u16::MAX, 1)]],
        has_lvt: true,
        stack_vars: vec![],
        wide_stack_vars: HashSet::new(),
        handler_starts: vec![],
    }
}

fn desc() -> MethodDescriptor {
    MethodDescriptor { args: vec![JType::Int], ret: JType::Int }
}

fn branching() -> Vec<Instruction> {
    // if (n != 0) return 1; return 2;
    vec![
        ins(0, 1, Opcode::Iload0, 0),
        jump(1, Opcode::Ifeq, 6),
        ins(4, 1, Opcode::Iconst1, 0),
        ret(5, Opcode::Ireturn),
        ins(6, 1, Opcode::Iconst2, 0),
        ret(7, Opcode::Ireturn),
    ]
}

#[test]
fn code_splits_into_blocks() {
    let cfg = Cfg::build(&class(), &branching(), 8, &vec![]);
    assert_eq!(cfg.len(), 3);
    assert!(!cfg.is_empty());
    assert_eq!(cfg.entry, 0);
    let bounds: Vec<(u16, u16)> = cfg.blocks.iter().map(|b| (b.start, b.end)).collect();
    assert_eq!(bounds, vec![(0, 4), (4, 6), (6, 8)]);
    let mut succ = cfg.blocks[0].succ.clone();
    succ.sort();
    assert_eq!(succ, vec![1, 2]);
    assert!(cfg.blocks[0].ends_cond());
    assert!(cfg.blocks[1].is_exit());
    assert_eq!(cfg.blocks[1].pred, vec![0]);
    assert_eq!(cfg.blocks[2].pred, vec![0]);
    assert_eq!(cfg.block_at(5), Some(1));
    assert_eq!(cfg.block_at(6), Some(2));
    assert_eq!(cfg.block_at(7), Some(2));
    assert_eq!(cfg.block_at(8), None);
    assert_eq!(cfg.block_at(u16::MAX), None);
    assert_eq!(cfg.blocks[2].last().map(|i| i.pc), Some(7));
}

#[test]
fn handlers_hang_on_protected_blocks() {
    let code = vec![ins(0, 1, Opcode::Nop, 0), ret(1, Opcode::Return), ret(2, Opcode::Athrow)];
    let cfg = Cfg::build(&class(), &code, 3, &vec![(0, 2, 2, 2), (0, 2, 2, 0)]);
    assert_eq!(cfg.exc_ranges.len(), 2);
    assert_eq!(cfg.exc_ranges[0].catch_type, Some("java/io/IOException".to_string()));
    assert_eq!(cfg.exc_ranges[1].catch_type, None);
    let h = cfg.block_at(2).unwrap();
    assert_eq!(cfg.blocks[h].handlers, vec![0, 1]);
    assert!(cfg.exc_edges.iter().any(|e| e.range == 0 && e.from == 0 && e.to == h));
}

#[test]
fn a_handler_past_the_code_stands_in_no_block() {
    let code = vec![ins(0, 1, Opcode::Nop, 0), ret(1, Opcode::Return)];
    let cfg = Cfg::build(&class(), &code, 2, &vec![(0, 2, 2, 0), (0, 2, 9, 2)]);
    assert_eq!(cfg.exc_ranges.len(), 2);
    assert_eq!(cfg.block_at(2), None);
    assert_eq!(cfg.block_at(9), None);
    assert!(cfg.exc_edges.is_empty());
    assert!(cfg.blocks.iter().all(|b| b.handlers.is_empty()));
}

#[test]
fn orders_and_dominators() {
    let cfg = Cfg::build(&class(), &branching(), 8, &vec![]);
    let order = reverse_postorder(&cfg);
    assert_eq!(order.len(), 3);
    assert_eq!(order[0], 0);
    let idom = immediate_dominators(&cfg);
    assert_eq!(idom.len(), 3);
    assert_eq!(idom[1], 0);
    assert_eq!(idom[2], 0);
}

#[test]
fn unreached_blocks_come_last() {
    assert_eq!(complete(&vec![2, 0], 4), vec![2, 0, 1, 3]);
    assert_eq!(complete(&vec![], 2), vec![0, 1]);
}

#[test]
fn a_block_becomes_a_condition() {
    let (pc, pool, vt, d) = (class(), pool(), table(), desc());
    let cfg = Cfg::build(&pc, &branching(), 8, &vec![]);
    let mut b = Builder::new(&pc, &pool, &vt, &d, true);
    let r = b.build_block(&cfg.blocks[0].ins, vec![]).ok().unwrap();
    assert!(r.stmts.is_empty());
    assert!(r.out_stack.is_empty());
    match r.term {
        Term::Cond { cond } => {
            let n = Expr::Local { var: 0, ty: TypeRef::J(JType::Int) };
            assert_eq!(
                format!("{:?}", cond),
                format!("{:?}", Expr::Bin { op: BinOp::Eq, l: Box::new(n), r: Box::new(number(0)), ty: None })
            );
        }
        other => panic!("{:?}", other),
    }
}

#[test]
fn a_block_returns_its_value() {
    let (pc, pool, vt, d) = (class(), pool(), table(), desc());
    let mut b = Builder::new(&pc, &pool, &vt, &d, true);
    let code = vec![
        ins(0, 1, Opcode::Iconst2, 0),
        ins(1, 1, Opcode::Iconst3, 0),
        ins(2, 1, Opcode::Iadd, 0),
        ret(3, Opcode::Ireturn),
    ];
    let r = b.build_block(&code, vec![]).ok().unwrap();
    match r.term {
        Term::Return(Some(e)) => assert_eq!(e, number(5)),
        other => panic!("{:?}", other),
    }
}

#[test]
fn values_left_on_the_stack_leave_with_the_block() {
    let (pc, pool, vt, d) = (class(), pool(), table(), desc());
    let mut b = Builder::new(&pc, &pool, &vt, &d, true);
    let r = b.build_block(&vec![ins(0, 1, Opcode::Iconst4, 0)], vec![number(9)]).ok().unwrap();
    assert_eq!(r.out_stack, vec![number(9), number(4)]);
    assert!(matches!(r.term, Term::Fallthrough));
}

#[test]
fn strings_come_from_the_constant_pool() {
    let (pc, pool, vt, d) = (class(), pool(), table(), desc());
    let mut b = Builder::new(&pc, &pool, &vt, &d, true);
    let r = b.build_block(&vec![ins(0, 2, Opcode::Ldc, 4)], vec![]).ok().unwrap();
    assert_eq!(r.out_stack, vec![Expr::Const(ConstVal::Str("hello".to_string()))]);
}

#[test]
fn an_empty_stack_cannot_be_popped() {
    let (pc, pool, vt, d) = (class(), pool(), table(), desc());
    let mut b = Builder::new(&pc, &pool, &vt, &d, true);
    let r = b.build_block(&vec![ins(0, 1, Opcode::Iadd, 0)], vec![]);
    match r {
        Err(e) => assert_eq!(e.0, "stack underflow"),
        Ok(r) => panic!("{:?}", r),
    }
}

#[test]
fn a_store_declares_its_variable_once() {
    let (pc, pool, vt, d) = (class(), pool(), table(), desc());
    let mut b = Builder::new(&pc, &pool, &vt, &d, true);
    let code = vec![ins(0, 1, Opcode::Iconst1, 0), ins(1, 1, Opcode::Istore1, 0)];
    let r = b.build_block(&code, vec![]).ok().unwrap();
    assert_eq!(r.stmts.len(), 1);
    match &r.stmts[0] {
        Stmt::LocalDef { var, init, .. } => {
            assert_eq!(*var, 1);
            assert_eq!(*init, Some(number(1)));
        }
        Stmt::ExprStmt(Expr::Assign { value, .. }) => assert_eq!(**value, number(1)),
        other => panic!("{:?}", other),
    }
}

#[test]
fn a_store_that_is_loaded_at_once_is_forwarded() {
    let code = vec![
        ins(0, 1, Opcode::Iconst1, 0),
        ins(1, 1, Opcode::Istore1, 0),
        ins(2, 1, Opcode::Iload1, 0),
        ret(3, Opcode::Ireturn),
    ];
    let cfg = Cfg::build(&class(), &code, 4, &vec![]);
    let f = find_forwards(&cfg.blocks, true, &vec![JType::Int], 2);
    assert_eq!(f.stores, vec![1]);
    assert_eq!(f.loads, vec![(2, 1)]);
    let none = Forwards::none();
    assert!(!none.drops_store(1));
    let (pc, pool, vt, d) = (class(), pool(), table(), desc());
    let mut b = Builder::new(&pc, &pool, &vt, &d, true).with_fwd(f);
    let r = b.build_block(&cfg.blocks[0].ins, vec![]).ok().unwrap();
    assert!(r.stmts.is_empty());
    match r.term {
        Term::Return(Some(e)) => assert_eq!(e, number(1)),
        other => panic!("{:?}", other),
    }
}

#[test]
fn parameters_are_never_forwarded() {
    let code = vec![
        ins(0, 1, Opcode::Iconst1, 0),
        ins(1, 1, Opcode::Istore0, 0),
        ins(2, 1, Opcode::Iload0, 0),
        ret(3, Opcode::Ireturn),
    ];
    let cfg = Cfg::build(&class(), &code, 4, &vec![]);
    let f = find_forwards(&cfg.blocks, true, &vec![JType::Int], 2);
    assert!(f.stores.is_empty());
    assert!(f.loads.is_empty());
}

fn sim(stack: Vec<Expr>) -> Sim {
    Sim { stack, stmts: vec![], term: Term::Fallthrough, marks: vec![], declared: vec![] }
}

#[test]
fn swapping_twice_changes_nothing() {
    let mut st = sim(vec![number(1), number(2), number(3)]);
    assert!(do_swap(&mut st).is_ok());
    assert_eq!(st.stack, vec![number(1), number(3), number(2)]);
    assert!(do_swap(&mut st).is_ok());
    assert_eq!(st.stack, vec![number(1), number(2), number(3)]);
}

#[test]
fn wide_values_are_copied_and_dropped_as_one() {
    let wide = || Expr::Const(ConstVal::Long(5));
    let mut st = sim(vec![number(1), wide()]);
    assert!(do_dup2(&mut st).is_ok());
    assert_eq!(st.stack, vec![number(1), wide(), wide()]);
    assert!(do_pop2(&mut st).is_ok());
    assert_eq!(st.stack, vec![number(1), wide()]);
}

#[test]
fn arguments_come_off_in_order() {
    let mut st = sim(vec![number(0), number(1), number(2), number(3)]);
    assert_eq!(st.pop_args(3).ok(), Some(vec![number(1), number(2), number(3)]));
    assert_eq!(st.stack, vec![number(0)]);
    assert!(st.pop_args(2).is_err());
}

#[test]
fn a_dropped_value_leaves_nothing() {
    let mut st = sim(vec![number(1)]);
    assert!(do_pop(&mut st).is_ok());
    assert!(st.stack.is_empty());
    assert!(st.stmts.is_empty());
    match do_pop(&mut st) {
        Err(e) => assert_eq!(e.0, "stack underflow"),
        Ok(_) => panic!("popped from nothing"),
    }
    assert_eq!(failure("x").0, "x");
}
