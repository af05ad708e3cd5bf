//! Instructions and what each one does.
use crate::expr::BinOp;
use crate::types::{JType, JTypeV};
use vstd::prelude::*;

verus! {

/// An operation code. `Other` stands for every code that has no meaning to the
/// builder.
#[derive(Debug, Clone, Copy, PartialEq, Eq, Structural)]
pub enum Opcode {
    Nop,
    AconstNull,
    IconstM1,
    Iconst0,
    Iconst1,
    Iconst2,
    Iconst3,
    Iconst4,
    Iconst5,
    Lconst0,
    Lconst1,
    Fconst0,
    Fconst1,
    Fconst2,
    Dconst0,
    Dconst1,
    Bipush,
    Sipush,
    Ldc,
    LdcW,
    Ldc2W,
    Iload,
    Iload0,
    Iload1,
    Iload2,
    Iload3,
    Lload,
    Lload0,
    Lload1,
    Lload2,
    Lload3,
    Fload,
    Fload0,
    Fload1,
    Fload2,
    Fload3,
    Dload,
    Dload0,
    Dload1,
    Dload2,
    Dload3,
    Aload,
    Aload0,
    Aload1,
    Aload2,
    Aload3,
    Iaload,
    Laload,
    Faload,
    Daload,
    Aaload,
    Baload,
    Caload,
    Saload,
    Istore,
    Istore0,
    Istore1,
    Istore2,
    Istore3,
    Lstore,
    Lstore0,
    Lstore1,
    Lstore2,
    Lstore3,
    Fstore,
    Fstore0,
    Fstore1,
    Fstore2,
    Fstore3,
    Dstore,
    Dstore0,
    Dstore1,
    Dstore2,
    Dstore3,
    Astore,
    Astore0,
    Astore1,
    Astore2,
    Astore3,
    Iastore,
    Lastore,
    Fastore,
    Dastore,
    Aastore,
    Bastore,
    Castore,
    Sastore,
    Pop,
    Pop2,
    Dup,
    DupX1,
    DupX2,
    Dup2,
    Dup2X1,
    Dup2X2,
    Swap,
    Iadd,
    Ladd,
    Fadd,
    Dadd,
    Isub,
    Lsub,
    Fsub,
    Dsub,
    Imul,
    Lmul,
    Fmul,
    Dmul,
    Idiv,
    Ldiv,
    Fdiv,
    Ddiv,
    Irem,
    Lrem,
    Frem,
    Drem,
    Ineg,
    Lneg,
    Fneg,
    Dneg,
    Ishl,
    Lshl,
    Ishr,
    Lshr,
    Iushr,
    Lushr,
    Iand,
    Land,
    Ior,
    Lor,
    Ixor,
    Lxor,
    Iinc,
    I2l,
    I2f,
    I2d,
    L2i,
    L2f,
    L2d,
    F2i,
    F2l,
    F2d,
    D2i,
    D2l,
    D2f,
    I2b,
    I2c,
    I2s,
    Lcmp,
    Fcmpl,
    Fcmpg,
    Dcmpl,
    Dcmpg,
    Ifeq,
    IfNe,
    IfLt,
    IfGe,
    IfGt,
    IfLe,
    IfIcmpEq,
    IfIcmpNe,
    IfIcmpLt,
    IfIcmpGe,
    IfIcmpGt,
    IfIcmpLe,
    IfAcmpeq,
    IfAcmpne,
    Goto,
    Jsr,
    Ret,
    Tableswitch,
    Lookupswitch,
    Ireturn,
    Lreturn,
    Freturn,
    Dreturn,
    Areturn,
    Return,
    Getstatic,
    Putstatic,
    Getfield,
    Putfield,
    Invokevirtual,
    Invokespecial,
    Invokestatic,
    Invokeinterface,
    Invokedynamic,
    New,
    Newarray,
    Anewarray,
    Arraylength,
    Athrow,
    Checkcast,
    Instanceof,
    Monitorenter,
    Monitorexit,
    Multianewarray,
    IfNull,
    IfNonnull,
    GotoW,
    JsrW,
    Invalid,
    Other,
}

/// Jump targets of a switch instruction.
#[derive(Debug)]
pub enum SwitchData {
    /// Targets indexed by the key minus `low`.
    Table { low: i32, targets: Vec<u16> },
    /// Keys with their targets.
    Lookup { pairs: Vec<(i32, u16)> },
}

/// Model of [`SwitchData`].
pub ghost enum SwitchDataV {
    Table { low: i32, targets: Seq<u16> },
    Lookup { pairs: Seq<(i32, u16)> },
}

impl SwitchData {
    pub open spec fn view(&self) -> SwitchDataV {
        match self {
            SwitchData::Table { low, targets } => SwitchDataV::Table {
                low: *low,
                targets: targets@,
            },
            SwitchData::Lookup { pairs } => SwitchDataV::Lookup { pairs: pairs@ },
        }
    }
}

/// A decoded instruction.
#[derive(Debug)]
pub struct Instruction {
    pub pc: u16,
    pub size: u16,
    pub op: Opcode,
    /// The code's name as a decoder prints it.
    pub name: String,
    /// First operand: a slot, a constant pool index, an immediate or a jump target.
    pub a: i32,
    /// Second operand.
    pub b: i32,
    pub switch_data: Option<SwitchData>,
    /// Control may go elsewhere than to the next instruction.
    pub is_jump: bool,
    /// Control never goes to the next instruction: a return or `athrow`.
    pub is_terminal: bool,
    /// All jump targets; of a switch the default first, then in key order.
    pub targets: Vec<u16>,
}

/// Model of [`Instruction`].
pub ghost struct InstructionV {
    pub pc: u16,
    pub size: u16,
    pub op: Opcode,
    pub name: Seq<char>,
    pub a: i32,
    pub b: i32,
    pub switch_data: Option<SwitchDataV>,
    pub is_jump: bool,
    pub is_terminal: bool,
    pub targets: Seq<u16>,
}

/// Model of optional switch data.
pub open spec fn opt_switch(o: Option<SwitchData>) -> Option<SwitchDataV> {
    match o {
        Some(d) => Some(d@),
        None => None,
    }
}

impl Instruction {
    pub open spec fn view(&self) -> InstructionV {
        InstructionV {
            pc: self.pc,
            size: self.size,
            op: self.op,
            name: self.name@,
            a: self.a,
            b: self.b,
            switch_data: opt_switch(self.switch_data),
            is_jump: self.is_jump,
            is_terminal: self.is_terminal,
            targets: self.targets@,
        }
    }
}

/// Model of a list of instructions.
pub open spec fn instructions(v: Seq<Instruction>) -> Seq<InstructionV> {
    Seq::new(v.len(), |i: int| v[i]@)
}

/// The constant that `iconst_m1` pushes.
pub const MINUS_ONE: i32 = -1;

/// The low sixteen bits of an operand.
pub open spec fn low16(a: i32) -> u16 {
    a as u16
}

/// The low sixteen bits of an operand.
pub fn to_u16(a: i32) -> (r: u16)
    ensures
        r == low16(a),
{
    a as u16
}

/// A primitive type on which an instruction works.
#[derive(Debug, Clone, Copy, PartialEq, Eq, Structural)]
pub enum Prim {
    Byte,
    Char,
    Short,
    Int,
    Long,
    Float,
    Double,
}

/// The primitive type as a type.
pub open spec fn prim_type(p: Prim) -> JTypeV {
    match p {
        Prim::Byte => JTypeV::Byte,
        Prim::Char => JTypeV::Char,
        Prim::Short => JTypeV::Short,
        Prim::Int => JTypeV::Int,
        Prim::Long => JTypeV::Long,
        Prim::Float => JTypeV::Float,
        Prim::Double => JTypeV::Double,
    }
}

impl Prim {
    /// The primitive type as a type.
    pub fn java_type(self) -> (r: JType)
        ensures
            r@ == prim_type(self),
    {
        match self {
            Prim::Byte => JType::Byte,
            Prim::Char => JType::Char,
            Prim::Short => JType::Short,
            Prim::Int => JType::Int,
            Prim::Long => JType::Long,
            Prim::Float => JType::Float,
            Prim::Double => JType::Double,
        }
    }
}

/// How a method is invoked.
#[derive(Debug, Clone, Copy, PartialEq, Eq, Structural)]
pub enum InvokeKind {
    Virtual,
    Special,
    Static,
    Interface,
}

/// What an instruction does, forms of one operation taken together.
#[derive(Debug, Clone, Copy, PartialEq, Eq, Structural)]
pub enum Operation {
    Nop,
    PushNull,
    PushInt(i32),
    PushLong(i64),
    /// IEEE 754 bits.
    PushFloat(u32),
    /// IEEE 754 bits.
    PushDouble(u64),
    Ldc(u16),
    Ldc2(u16),
    Load(u16),
    ArrayLoad,
    /// The slot, and whether a reference is stored.
    Store(u16, bool),
    ArrayStore,
    Pop,
    Pop2,
    Dup,
    DupX1,
    DupX2,
    Dup2,
    Dup2X1,
    Dup2X2,
    Swap,
    Arith(BinOp, Prim),
    Neg,
    Inc,
    Convert(Prim),
    Compare(Prim),
    /// Compares with zero.
    IfZero(BinOp),
    /// Compares two values.
    IfPair(BinOp),
    /// Compares with `null`.
    IfNull(BinOp),
    Goto,
    Jsr,
    Ret,
    Switch,
    ReturnValue,
    ReturnVoid,
    Throw,
    GetStatic,
    PutStatic,
    GetField,
    PutField,
    Invoke(InvokeKind),
    InvokeDynamic,
    New,
    NewPrimitiveArray,
    NewObjectArray,
    NewMultiArray,
    ArrayLength,
    CheckCast,
    InstanceOf,
    MonitorEnter,
    MonitorExit,
    Invalid,
    Unhandled,
}

/// What instruction `i` does.
pub open spec fn operation_of(i: InstructionV) -> Operation {
    match i.op {
        Opcode::Nop => Operation::Nop,
        Opcode::AconstNull => Operation::PushNull,
        Opcode::IconstM1 => Operation::PushInt(MINUS_ONE),
        Opcode::Iconst0 => Operation::PushInt(0),
        Opcode::Iconst1 => Operation::PushInt(1),
        Opcode::Iconst2 => Operation::PushInt(2),
        Opcode::Iconst3 => Operation::PushInt(3),
        Opcode::Iconst4 => Operation::PushInt(4),
        Opcode::Iconst5 => Operation::PushInt(5),
        Opcode::Lconst0 => Operation::PushLong(0),
        Opcode::Lconst1 => Operation::PushLong(1),
        Opcode::Fconst0 => Operation::PushFloat(0x00000000),
        Opcode::Fconst1 => Operation::PushFloat(0x3f800000),
        Opcode::Fconst2 => Operation::PushFloat(0x40000000),
        Opcode::Dconst0 => Operation::PushDouble(0x0000000000000000),
        Opcode::Dconst1 => Operation::PushDouble(0x3ff0000000000000),
        Opcode::Bipush => Operation::PushInt(i.a),
        Opcode::Sipush => Operation::PushInt(i.a),
        Opcode::Ldc => Operation::Ldc(low16(i.a)),
        Opcode::LdcW => Operation::Ldc(low16(i.a)),
        Opcode::Ldc2W => Operation::Ldc2(low16(i.a)),
        Opcode::Iload => Operation::Load(low16(i.a)),
        Opcode::Iload0 => Operation::Load(0),
        Opcode::Iload1 => Operation::Load(1),
        Opcode::Iload2 => Operation::Load(2),
        Opcode::Iload3 => Operation::Load(3),
        Opcode::Lload => Operation::Load(low16(i.a)),
        Opcode::Lload0 => Operation::Load(0),
        Opcode::Lload1 => Operation::Load(1),
        Opcode::Lload2 => Operation::Load(2),
        Opcode::Lload3 => Operation::Load(3),
        Opcode::Fload => Operation::Load(low16(i.a)),
        Opcode::Fload0 => Operation::Load(0),
        Opcode::Fload1 => Operation::Load(1),
        Opcode::Fload2 => Operation::Load(2),
        Opcode::Fload3 => Operation::Load(3),
        Opcode::Dload => Operation::Load(low16(i.a)),
        Opcode::Dload0 => Operation::Load(0),
        Opcode::Dload1 => Operation::Load(1),
        Opcode::Dload2 => Operation::Load(2),
        Opcode::Dload3 => Operation::Load(3),
        Opcode::Aload => Operation::Load(low16(i.a)),
        Opcode::Aload0 => Operation::Load(0),
        Opcode::Aload1 => Operation::Load(1),
        Opcode::Aload2 => Operation::Load(2),
        Opcode::Aload3 => Operation::Load(3),
        Opcode::Iaload => Operation::ArrayLoad,
        Opcode::Laload => Operation::ArrayLoad,
        Opcode::Faload => Operation::ArrayLoad,
        Opcode::Daload => Operation::ArrayLoad,
        Opcode::Aaload => Operation::ArrayLoad,
        Opcode::Baload => Operation::ArrayLoad,
        Opcode::Caload => Operation::ArrayLoad,
        Opcode::Saload => Operation::ArrayLoad,
        Opcode::Istore => Operation::Store(low16(i.a), false),
        Opcode::Istore0 => Operation::Store(0, false),
        Opcode::Istore1 => Operation::Store(1, false),
        Opcode::Istore2 => Operation::Store(2, false),
        Opcode::Istore3 => Operation::Store(3, false),
        Opcode::Lstore => Operation::Store(low16(i.a), false),
        Opcode::Lstore0 => Operation::Store(0, false),
        Opcode::Lstore1 => Operation::Store(1, false),
        Opcode::Lstore2 => Operation::Store(2, false),
        Opcode::Lstore3 => Operation::Store(3, false),
        Opcode::Fstore => Operation::Store(low16(i.a), false),
        Opcode::Fstore0 => Operation::Store(0, false),
        Opcode::Fstore1 => Operation::Store(1, false),
        Opcode::Fstore2 => Operation::Store(2, false),
        Opcode::Fstore3 => Operation::Store(3, false),
        Opcode::Dstore => Operation::Store(low16(i.a), false),
        Opcode::Dstore0 => Operation::Store(0, false),
        Opcode::Dstore1 => Operation::Store(1, false),
        Opcode::Dstore2 => Operation::Store(2, false),
        Opcode::Dstore3 => Operation::Store(3, false),
        Opcode::Astore => Operation::Store(low16(i.a), true),
        Opcode::Astore0 => Operation::Store(0, true),
        Opcode::Astore1 => Operation::Store(1, true),
        Opcode::Astore2 => Operation::Store(2, true),
        Opcode::Astore3 => Operation::Store(3, true),
        Opcode::Iastore => Operation::ArrayStore,
        Opcode::Lastore => Operation::ArrayStore,
        Opcode::Fastore => Operation::ArrayStore,
        Opcode::Dastore => Operation::ArrayStore,
        Opcode::Aastore => Operation::ArrayStore,
        Opcode::Bastore => Operation::ArrayStore,
        Opcode::Castore => Operation::ArrayStore,
        Opcode::Sastore => Operation::ArrayStore,
        Opcode::Pop => Operation::Pop,
        Opcode::Pop2 => Operation::Pop2,
        Opcode::Dup => Operation::Dup,
        Opcode::DupX1 => Operation::DupX1,
        Opcode::DupX2 => Operation::DupX2,
        Opcode::Dup2 => Operation::Dup2,
        Opcode::Dup2X1 => Operation::Dup2X1,
        Opcode::Dup2X2 => Operation::Dup2X2,
        Opcode::Swap => Operation::Swap,
        Opcode::Iadd => Operation::Arith(BinOp::Add, Prim::Int),
        Opcode::Ladd => Operation::Arith(BinOp::Add, Prim::Long),
        Opcode::Fadd => Operation::Arith(BinOp::Add, Prim::Float),
        Opcode::Dadd => Operation::Arith(BinOp::Add, Prim::Double),
        Opcode::Isub => Operation::Arith(BinOp::Sub, Prim::Int),
        Opcode::Lsub => Operation::Arith(BinOp::Sub, Prim::Long),
        Opcode::Fsub => Operation::Arith(BinOp::Sub, Prim::Float),
        Opcode::Dsub => Operation::Arith(BinOp::Sub, Prim::Double),
        Opcode::Imul => Operation::Arith(BinOp::Mul, Prim::Int),
        Opcode::Lmul => Operation::Arith(BinOp::Mul, Prim::Long),
        Opcode::Fmul => Operation::Arith(BinOp::Mul, Prim::Float),
        Opcode::Dmul => Operation::Arith(BinOp::Mul, Prim::Double),
        Opcode::Idiv => Operation::Arith(BinOp::Div, Prim::Int),
        Opcode::Ldiv => Operation::Arith(BinOp::Div, Prim::Long),
        Opcode::Fdiv => Operation::Arith(BinOp::Div, Prim::Float),
        Opcode::Ddiv => Operation::Arith(BinOp::Div, Prim::Double),
        Opcode::Irem => Operation::Arith(BinOp::Rem, Prim::Int),
        Opcode::Lrem => Operation::Arith(BinOp::Rem, Prim::Long),
        Opcode::Frem => Operation::Arith(BinOp::Rem, Prim::Float),
        Opcode::Drem => Operation::Arith(BinOp::Rem, Prim::Double),
        Opcode::Ineg => Operation::Neg,
        Opcode::Lneg => Operation::Neg,
        Opcode::Fneg => Operation::Neg,
        Opcode::Dneg => Operation::Neg,
        Opcode::Ishl => Operation::Arith(BinOp::Shl, Prim::Int),
        Opcode::Lshl => Operation::Arith(BinOp::Shl, Prim::Long),
        Opcode::Ishr => Operation::Arith(BinOp::Shr, Prim::Int),
        Opcode::Lshr => Operation::Arith(BinOp::Shr, Prim::Long),
        Opcode::Iushr => Operation::Arith(BinOp::Ushr, Prim::Int),
        Opcode::Lushr => Operation::Arith(BinOp::Ushr, Prim::Long),
        Opcode::Iand => Operation::Arith(BinOp::And, Prim::Int),
        Opcode::Land => Operation::Arith(BinOp::And, Prim::Long),
        Opcode::Ior => Operation::Arith(BinOp::Or, Prim::Int),
        Opcode::Lor => Operation::Arith(BinOp::Or, Prim::Long),
        Opcode::Ixor => Operation::Arith(BinOp::Xor, Prim::Int),
        Opcode::Lxor => Operation::Arith(BinOp::Xor, Prim::Long),
        Opcode::Iinc => Operation::Inc,
        Opcode::I2l => Operation::Convert(Prim::Long),
        Opcode::I2f => Operation::Convert(Prim::Float),
        Opcode::I2d => Operation::Convert(Prim::Double),
        Opcode::L2i => Operation::Convert(Prim::Int),
        Opcode::L2f => Operation::Convert(Prim::Float),
        Opcode::L2d => Operation::Convert(Prim::Double),
        Opcode::F2i => Operation::Convert(Prim::Int),
        Opcode::F2l => Operation::Convert(Prim::Long),
        Opcode::F2d => Operation::Convert(Prim::Double),
        Opcode::D2i => Operation::Convert(Prim::Int),
        Opcode::D2l => Operation::Convert(Prim::Long),
        Opcode::D2f => Operation::Convert(Prim::Float),
        Opcode::I2b => Operation::Convert(Prim::Byte),
        Opcode::I2c => Operation::Convert(Prim::Char),
        Opcode::I2s => Operation::Convert(Prim::Short),
        Opcode::Lcmp => Operation::Compare(Prim::Long),
        Opcode::Fcmpl => Operation::Compare(Prim::Float),
        Opcode::Fcmpg => Operation::Compare(Prim::Float),
        Opcode::Dcmpl => Operation::Compare(Prim::Double),
        Opcode::Dcmpg => Operation::Compare(Prim::Double),
        Opcode::Ifeq => Operation::IfZero(BinOp::Eq),
        Opcode::IfNe => Operation::IfZero(BinOp::Ne),
        Opcode::IfLt => Operation::IfZero(BinOp::Lt),
        Opcode::IfGe => Operation::IfZero(BinOp::Ge),
        Opcode::IfGt => Operation::IfZero(BinOp::Gt),
        Opcode::IfLe => Operation::IfZero(BinOp::Le),
        Opcode::IfIcmpEq => Operation::IfPair(BinOp::Eq),
        Opcode::IfIcmpNe => Operation::IfPair(BinOp::Ne),
        Opcode::IfIcmpLt => Operation::IfPair(BinOp::Lt),
        Opcode::IfIcmpGe => Operation::IfPair(BinOp::Ge),
        Opcode::IfIcmpGt => Operation::IfPair(BinOp::Gt),
        Opcode::IfIcmpLe => Operation::IfPair(BinOp::Le),
        Opcode::IfAcmpeq => Operation::IfPair(BinOp::RefEq),
        Opcode::IfAcmpne => Operation::IfPair(BinOp::RefNe),
        Opcode::Goto => Operation::Goto,
        Opcode::Jsr => Operation::Jsr,
        Opcode::Ret => Operation::Ret,
        Opcode::Tableswitch => Operation::Switch,
        Opcode::Lookupswitch => Operation::Switch,
        Opcode::Ireturn => Operation::ReturnValue,
        Opcode::Lreturn => Operation::ReturnValue,
        Opcode::Freturn => Operation::ReturnValue,
        Opcode::Dreturn => Operation::ReturnValue,
        Opcode::Areturn => Operation::ReturnValue,
        Opcode::Return => Operation::ReturnVoid,
        Opcode::Getstatic => Operation::GetStatic,
        Opcode::Putstatic => Operation::PutStatic,
        Opcode::Getfield => Operation::GetField,
        Opcode::Putfield => Operation::PutField,
        Opcode::Invokevirtual => Operation::Invoke(InvokeKind::Virtual),
        Opcode::Invokespecial => Operation::Invoke(InvokeKind::Special),
        Opcode::Invokestatic => Operation::Invoke(InvokeKind::Static),
        Opcode::Invokeinterface => Operation::Invoke(InvokeKind::Interface),
        Opcode::Invokedynamic => Operation::InvokeDynamic,
        Opcode::New => Operation::New,
        Opcode::Newarray => Operation::NewPrimitiveArray,
        Opcode::Anewarray => Operation::NewObjectArray,
        Opcode::Arraylength => Operation::ArrayLength,
        Opcode::Athrow => Operation::Throw,
        Opcode::Checkcast => Operation::CheckCast,
        Opcode::Instanceof => Operation::InstanceOf,
        Opcode::Monitorenter => Operation::MonitorEnter,
        Opcode::Monitorexit => Operation::MonitorExit,
        Opcode::Multianewarray => Operation::NewMultiArray,
        Opcode::IfNull => Operation::IfNull(BinOp::RefEq),
        Opcode::IfNonnull => Operation::IfNull(BinOp::RefNe),
        Opcode::GotoW => Operation::Goto,
        Opcode::JsrW => Operation::Jsr,
        Opcode::Invalid => Operation::Invalid,
        Opcode::Other => Operation::Unhandled,
    }
}

impl Instruction {
    /// What this instruction does.
    pub fn operation(&self) -> (r: Operation)
        ensures
            r == operation_of(self@),
    {
        let i = self;
        match i.op {
            Opcode::Nop => Operation::Nop,
            Opcode::AconstNull => Operation::PushNull,
            Opcode::IconstM1 => Operation::PushInt(MINUS_ONE),
            Opcode::Iconst0 => Operation::PushInt(0),
            Opcode::Iconst1 => Operation::PushInt(1),
            Opcode::Iconst2 => Operation::PushInt(2),
            Opcode::Iconst3 => Operation::PushInt(3),
            Opcode::Iconst4 => Operation::PushInt(4),
            Opcode::Iconst5 => Operation::PushInt(5),
            Opcode::Lconst0 => Operation::PushLong(0),
            Opcode::Lconst1 => Operation::PushLong(1),
            Opcode::Fconst0 => Operation::PushFloat(0x00000000),
            Opcode::Fconst1 => Operation::PushFloat(0x3f800000),
            Opcode::Fconst2 => Operation::PushFloat(0x40000000),
            Opcode::Dconst0 => Operation::PushDouble(0x0000000000000000),
            Opcode::Dconst1 => Operation::PushDouble(0x3ff0000000000000),
            Opcode::Bipush => Operation::PushInt(i.a),
            Opcode::Sipush => Operation::PushInt(i.a),
            Opcode::Ldc => Operation::Ldc(to_u16(i.a)),
            Opcode::LdcW => Operation::Ldc(to_u16(i.a)),
            Opcode::Ldc2W => Operation::Ldc2(to_u16(i.a)),
            Opcode::Iload => Operation::Load(to_u16(i.a)),
            Opcode::Iload0 => Operation::Load(0),
            Opcode::Iload1 => Operation::Load(1),
            Opcode::Iload2 => Operation::Load(2),
            Opcode::Iload3 => Operation::Load(3),
            Opcode::Lload => Operation::Load(to_u16(i.a)),
            Opcode::Lload0 => Operation::Load(0),
            Opcode::Lload1 => Operation::Load(1),
            Opcode::Lload2 => Operation::Load(2),
            Opcode::Lload3 => Operation::Load(3),
            Opcode::Fload => Operation::Load(to_u16(i.a)),
            Opcode::Fload0 => Operation::Load(0),
            Opcode::Fload1 => Operation::Load(1),
            Opcode::Fload2 => Operation::Load(2),
            Opcode::Fload3 => Operation::Load(3),
            Opcode::Dload => Operation::Load(to_u16(i.a)),
            Opcode::Dload0 => Operation::Load(0),
            Opcode::Dload1 => Operation::Load(1),
            Opcode::Dload2 => Operation::Load(2),
            Opcode::Dload3 => Operation::Load(3),
            Opcode::Aload => Operation::Load(to_u16(i.a)),
            Opcode::Aload0 => Operation::Load(0),
            Opcode::Aload1 => Operation::Load(1),
            Opcode::Aload2 => Operation::Load(2),
            Opcode::Aload3 => Operation::Load(3),
            Opcode::Iaload => Operation::ArrayLoad,
            Opcode::Laload => Operation::ArrayLoad,
            Opcode::Faload => Operation::ArrayLoad,
            Opcode::Daload => Operation::ArrayLoad,
            Opcode::Aaload => Operation::ArrayLoad,
            Opcode::Baload => Operation::ArrayLoad,
            Opcode::Caload => Operation::ArrayLoad,
            Opcode::Saload => Operation::ArrayLoad,
            Opcode::Istore => Operation::Store(to_u16(i.a), false),
            Opcode::Istore0 => Operation::Store(0, false),
            Opcode::Istore1 => Operation::Store(1, false),
            Opcode::Istore2 => Operation::Store(2, false),
            Opcode::Istore3 => Operation::Store(3, false),
            Opcode::Lstore => Operation::Store(to_u16(i.a), false),
            Opcode::Lstore0 => Operation::Store(0, false),
            Opcode::Lstore1 => Operation::Store(1, false),
            Opcode::Lstore2 => Operation::Store(2, false),
            Opcode::Lstore3 => Operation::Store(3, false),
            Opcode::Fstore => Operation::Store(to_u16(i.a), false),
            Opcode::Fstore0 => Operation::Store(0, false),
            Opcode::Fstore1 => Operation::Store(1, false),
            Opcode::Fstore2 => Operation::Store(2, false),
            Opcode::Fstore3 => Operation::Store(3, false),
            Opcode::Dstore => Operation::Store(to_u16(i.a), false),
            Opcode::Dstore0 => Operation::Store(0, false),
            Opcode::Dstore1 => Operation::Store(1, false),
            Opcode::Dstore2 => Operation::Store(2, false),
            Opcode::Dstore3 => Operation::Store(3, false),
            Opcode::Astore => Operation::Store(to_u16(i.a), true),
            Opcode::Astore0 => Operation::Store(0, true),
            Opcode::Astore1 => Operation::Store(1, true),
            Opcode::Astore2 => Operation::Store(2, true),
            Opcode::Astore3 => Operation::Store(3, true),
            Opcode::Iastore => Operation::ArrayStore,
            Opcode::Lastore => Operation::ArrayStore,
            Opcode::Fastore => Operation::ArrayStore,
            Opcode::Dastore => Operation::ArrayStore,
            Opcode::Aastore => Operation::ArrayStore,
            Opcode::Bastore => Operation::ArrayStore,
            Opcode::Castore => Operation::ArrayStore,
            Opcode::Sastore => Operation::ArrayStore,
            Opcode::Pop => Operation::Pop,
            Opcode::Pop2 => Operation::Pop2,
            Opcode::Dup => Operation::Dup,
            Opcode::DupX1 => Operation::DupX1,
            Opcode::DupX2 => Operation::DupX2,
            Opcode::Dup2 => Operation::Dup2,
            Opcode::Dup2X1 => Operation::Dup2X1,
            Opcode::Dup2X2 => Operation::Dup2X2,
            Opcode::Swap => Operation::Swap,
            Opcode::Iadd => Operation::Arith(BinOp::Add, Prim::Int),
            Opcode::Ladd => Operation::Arith(BinOp::Add, Prim::Long),
            Opcode::Fadd => Operation::Arith(BinOp::Add, Prim::Float),
            Opcode::Dadd => Operation::Arith(BinOp::Add, Prim::Double),
            Opcode::Isub => Operation::Arith(BinOp::Sub, Prim::Int),
            Opcode::Lsub => Operation::Arith(BinOp::Sub, Prim::Long),
            Opcode::Fsub => Operation::Arith(BinOp::Sub, Prim::Float),
            Opcode::Dsub => Operation::Arith(BinOp::Sub, Prim::Double),
            Opcode::Imul => Operation::Arith(BinOp::Mul, Prim::Int),
            Opcode::Lmul => Operation::Arith(BinOp::Mul, Prim::Long),
            Opcode::Fmul => Operation::Arith(BinOp::Mul, Prim::Float),
            Opcode::Dmul => Operation::Arith(BinOp::Mul, Prim::Double),
            Opcode::Idiv => Operation::Arith(BinOp::Div, Prim::Int),
            Opcode::Ldiv => Operation::Arith(BinOp::Div, Prim::Long),
            Opcode::Fdiv => Operation::Arith(BinOp::Div, Prim::Float),
            Opcode::Ddiv => Operation::Arith(BinOp::Div, Prim::Double),
            Opcode::Irem => Operation::Arith(BinOp::Rem, Prim::Int),
            Opcode::Lrem => Operation::Arith(BinOp::Rem, Prim::Long),
            Opcode::Frem => Operation::Arith(BinOp::Rem, Prim::Float),
            Opcode::Drem => Operation::Arith(BinOp::Rem, Prim::Double),
            Opcode::Ineg => Operation::Neg,
            Opcode::Lneg => Operation::Neg,
            Opcode::Fneg => Operation::Neg,
            Opcode::Dneg => Operation::Neg,
            Opcode::Ishl => Operation::Arith(BinOp::Shl, Prim::Int),
            Opcode::Lshl => Operation::Arith(BinOp::Shl, Prim::Long),
            Opcode::Ishr => Operation::Arith(BinOp::Shr, Prim::Int),
            Opcode::Lshr => Operation::Arith(BinOp::Shr, Prim::Long),
            Opcode::Iushr => Operation::Arith(BinOp::Ushr, Prim::Int),
            Opcode::Lushr => Operation::Arith(BinOp::Ushr, Prim::Long),
            Opcode::Iand => Operation::Arith(BinOp::And, Prim::Int),
            Opcode::Land => Operation::Arith(BinOp::And, Prim::Long),
            Opcode::Ior => Operation::Arith(BinOp::Or, Prim::Int),
            Opcode::Lor => Operation::Arith(BinOp::Or, Prim::Long),
            Opcode::Ixor => Operation::Arith(BinOp::Xor, Prim::Int),
            Opcode::Lxor => Operation::Arith(BinOp::Xor, Prim::Long),
            Opcode::Iinc => Operation::Inc,
            Opcode::I2l => Operation::Convert(Prim::Long),
            Opcode::I2f => Operation::Convert(Prim::Float),
            Opcode::I2d => Operation::Convert(Prim::Double),
            Opcode::L2i => Operation::Convert(Prim::Int),
            Opcode::L2f => Operation::Convert(Prim::Float),
            Opcode::L2d => Operation::Convert(Prim::Double),
            Opcode::F2i => Operation::Convert(Prim::Int),
            Opcode::F2l => Operation::Convert(Prim::Long),
            Opcode::F2d => Operation::Convert(Prim::Double),
            Opcode::D2i => Operation::Convert(Prim::Int),
            Opcode::D2l => Operation::Convert(Prim::Long),
            Opcode::D2f => Operation::Convert(Prim::Float),
            Opcode::I2b => Operation::Convert(Prim::Byte),
            Opcode::I2c => Operation::Convert(Prim::Char),
            Opcode::I2s => Operation::Convert(Prim::Short),
            Opcode::Lcmp => Operation::Compare(Prim::Long),
            Opcode::Fcmpl => Operation::Compare(Prim::Float),
            Opcode::Fcmpg => Operation::Compare(Prim::Float),
            Opcode::Dcmpl => Operation::Compare(Prim::Double),
            Opcode::Dcmpg => Operation::Compare(Prim::Double),
            Opcode::Ifeq => Operation::IfZero(BinOp::Eq),
            Opcode::IfNe => Operation::IfZero(BinOp::Ne),
            Opcode::IfLt => Operation::IfZero(BinOp::Lt),
            Opcode::IfGe => Operation::IfZero(BinOp::Ge),
            Opcode::IfGt => Operation::IfZero(BinOp::Gt),
            Opcode::IfLe => Operation::IfZero(BinOp::Le),
            Opcode::IfIcmpEq => Operation::IfPair(BinOp::Eq),
            Opcode::IfIcmpNe => Operation::IfPair(BinOp::Ne),
            Opcode::IfIcmpLt => Operation::IfPair(BinOp::Lt),
            Opcode::IfIcmpGe => Operation::IfPair(BinOp::Ge),
            Opcode::IfIcmpGt => Operation::IfPair(BinOp::Gt),
            Opcode::IfIcmpLe => Operation::IfPair(BinOp::Le),
            Opcode::IfAcmpeq => Operation::IfPair(BinOp::RefEq),
            Opcode::IfAcmpne => Operation::IfPair(BinOp::RefNe),
            Opcode::Goto => Operation::Goto,
            Opcode::Jsr => Operation::Jsr,
            Opcode::Ret => Operation::Ret,
            Opcode::Tableswitch => Operation::Switch,
            Opcode::Lookupswitch => Operation::Switch,
            Opcode::Ireturn => Operation::ReturnValue,
            Opcode::Lreturn => Operation::ReturnValue,
            Opcode::Freturn => Operation::ReturnValue,
            Opcode::Dreturn => Operation::ReturnValue,
            Opcode::Areturn => Operation::ReturnValue,
            Opcode::Return => Operation::ReturnVoid,
            Opcode::Getstatic => Operation::GetStatic,
            Opcode::Putstatic => Operation::PutStatic,
            Opcode::Getfield => Operation::GetField,
            Opcode::Putfield => Operation::PutField,
            Opcode::Invokevirtual => Operation::Invoke(InvokeKind::Virtual),
            Opcode::Invokespecial => Operation::Invoke(InvokeKind::Special),
            Opcode::Invokestatic => Operation::Invoke(InvokeKind::Static),
            Opcode::Invokeinterface => Operation::Invoke(InvokeKind::Interface),
            Opcode::Invokedynamic => Operation::InvokeDynamic,
            Opcode::New => Operation::New,
            Opcode::Newarray => Operation::NewPrimitiveArray,
            Opcode::Anewarray => Operation::NewObjectArray,
            Opcode::Arraylength => Operation::ArrayLength,
            Opcode::Athrow => Operation::Throw,
            Opcode::Checkcast => Operation::CheckCast,
            Opcode::Instanceof => Operation::InstanceOf,
            Opcode::Monitorenter => Operation::MonitorEnter,
            Opcode::Monitorexit => Operation::MonitorExit,
            Opcode::Multianewarray => Operation::NewMultiArray,
            Opcode::IfNull => Operation::IfNull(BinOp::RefEq),
            Opcode::IfNonnull => Operation::IfNull(BinOp::RefNe),
            Opcode::GotoW => Operation::Goto,
            Opcode::JsrW => Operation::Jsr,
            Opcode::Invalid => Operation::Invalid,
            Opcode::Other => Operation::Unhandled,
        }
    }

    /// The slot of an `int` load.
    pub fn int_load_slot(&self) -> (r: Option<u16>)
        ensures
            r == int_load_slot(self@),
    {
        match self.op {
            Opcode::Iload => Some(to_u16(self.a)),
            Opcode::Iload0 => Some(0),
            Opcode::Iload1 => Some(1),
            Opcode::Iload2 => Some(2),
            Opcode::Iload3 => Some(3),
            _ => None,
        }
    }

    /// The slot of an `int` store.
    pub fn int_store_slot(&self) -> (r: Option<u16>)
        ensures
            r == int_store_slot(self@),
    {
        match self.op {
            Opcode::Istore => Some(to_u16(self.a)),
            Opcode::Istore0 => Some(0),
            Opcode::Istore1 => Some(1),
            Opcode::Istore2 => Some(2),
            Opcode::Istore3 => Some(3),
            _ => None,
        }
    }
}

/// The slot of an `int` load.
pub open spec fn int_load_slot(i: InstructionV) -> Option<u16> {
    match i.op {
        Opcode::Iload => Some(low16(i.a)),
        Opcode::Iload0 => Some(0u16),
        Opcode::Iload1 => Some(1u16),
        Opcode::Iload2 => Some(2u16),
        Opcode::Iload3 => Some(3u16),
        _ => None,
    }
}

/// The slot of an `int` store.
pub open spec fn int_store_slot(i: InstructionV) -> Option<u16> {
    match i.op {
        Opcode::Istore => Some(low16(i.a)),
        Opcode::Istore0 => Some(0u16),
        Opcode::Istore1 => Some(1u16),
        Opcode::Istore2 => Some(2u16),
        Opcode::Istore3 => Some(3u16),
        _ => None,
    }
}

} // verus!
