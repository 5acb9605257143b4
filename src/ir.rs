//! The intermediate representation that the translator emits.
//!
//! Every entity of a function under construction (extended basic blocks, SSA values,
//! instructions, heaps, signatures, ...) is named by a handle holding its position in the
//! builder's tables. Handles are plain values: copying one never creates an entity.
use vstd::prelude::*;

verus! {

/// An extended basic block.
#[derive(Clone, Copy, Debug, PartialEq, Eq, Structural)]
pub struct Ebb {
    pub index: usize,
}

/// An SSA value.
#[derive(Clone, Copy, Debug, PartialEq, Eq, Structural)]
pub struct Value {
    pub index: usize,
}

/// An instruction.
#[derive(Clone, Copy, Debug, PartialEq, Eq, Structural)]
pub struct Inst {
    pub index: usize,
}

/// A linear-memory region with its guard pages.
#[derive(Clone, Copy, Debug, PartialEq, Eq, Structural)]
pub struct Heap {
    pub index: usize,
}

/// A signature imported into the function, used by indirect calls.
#[derive(Clone, Copy, Debug, PartialEq, Eq, Structural)]
pub struct SigRef {
    pub index: usize,
}

/// A function imported into the function, used by direct calls.
#[derive(Clone, Copy, Debug, PartialEq, Eq, Structural)]
pub struct FuncRef {
    pub index: usize,
}

/// A global variable slot whose address can be taken.
#[derive(Clone, Copy, Debug, PartialEq, Eq, Structural)]
pub struct GlobalVar {
    pub index: usize,
}

/// A jump table used by `br_table`.
#[derive(Clone, Copy, Debug, PartialEq, Eq, Structural)]
pub struct JumpTable {
    pub index: usize,
}

/// The value types of the IR.
#[derive(Clone, Copy, Debug, PartialEq, Eq, Structural)]
pub enum Type {
    I32,
    I64,
    F32,
    F64,
    B1,
}

/// Integer comparison conditions.
#[derive(Clone, Copy, Debug, PartialEq, Eq, Structural)]
pub enum IntCC {
    Equal,
    NotEqual,
    SignedLessThan,
    SignedGreaterThanOrEqual,
    SignedGreaterThan,
    SignedLessThanOrEqual,
    UnsignedLessThan,
    UnsignedGreaterThanOrEqual,
    UnsignedGreaterThan,
    UnsignedLessThanOrEqual,
}

/// Floating-point comparison conditions.
#[derive(Clone, Copy, Debug, PartialEq, Eq, Structural)]
pub enum FloatCC {
    Equal,
    NotEqual,
    LessThan,
    LessThanOrEqual,
    GreaterThan,
    GreaterThanOrEqual,
}

/// Trap codes; `User(0)` is the code of the `unreachable` opcode.
#[derive(Clone, Copy, Debug, PartialEq, Eq, Structural)]
pub enum TrapCode {
    User(u16),
}

/// Single-operand instructions whose result has the type of their operand.
#[derive(Clone, Copy, Debug, PartialEq, Eq, Structural)]
pub enum UnaryOpcode {
    Clz,
    Ctz,
    Popcnt,
    Fneg,
    Fabs,
    Sqrt,
    Ceil,
    Floor,
    Trunc,
    Nearest,
}

/// Two-operand instructions.
#[derive(Clone, Copy, Debug, PartialEq, Eq, Structural)]
pub enum BinaryOpcode {
    Iadd,
    Isub,
    Imul,
    Sdiv,
    Udiv,
    Srem,
    Urem,
    Band,
    Bor,
    Bxor,
    Ishl,
    Sshr,
    Ushr,
    Rotl,
    Rotr,
    Fadd,
    Fsub,
    Fmul,
    Fdiv,
    Fmin,
    Fmax,
    Fcopysign,
}

/// Conversions; each names the type of its result.
#[derive(Clone, Copy, Debug, PartialEq, Eq, Structural)]
pub enum ConversionOpcode {
    Ireduce,
    Sextend,
    Uextend,
    FcvtToSint,
    FcvtToUint,
    FcvtFromSint,
    FcvtFromUint,
    Fpromote,
    Fdemote,
    Bitcast,
}

/// Memory loads, by width and extension.
#[derive(Clone, Copy, Debug, PartialEq, Eq, Structural)]
pub enum LoadOpcode {
    Load,
    Uload8,
    Sload8,
    Uload16,
    Sload16,
    Uload32,
    Sload32,
}

/// Memory stores, by width.
#[derive(Clone, Copy, Debug, PartialEq, Eq, Structural)]
pub enum StoreOpcode {
    Store,
    Istore8,
    Istore16,
    Istore32,
}

/// What a function parameter or return value stands for.
#[derive(Clone, Copy, Debug, PartialEq, Eq, Structural)]
pub enum ArgumentPurpose {
    Normal,
    StructReturn,
    Link,
    FramePointer,
    CalleeSaved,
    VMContext,
    SignatureId,
}

/// A parameter or return value of a signature.
#[derive(Clone, Copy, Debug, PartialEq, Eq, Structural)]
pub struct AbiParam {
    pub value_type: Type,
    pub purpose: ArgumentPurpose,
}

/// A function signature.
#[derive(Clone, Debug)]
pub struct Signature {
    pub params: Vec<AbiParam>,
    pub returns: Vec<AbiParam>,
}

/// The instructions that the translator emits, with their operands.
#[derive(Clone, Debug)]
pub enum InstData {
    Jump { destination: Ebb, args: Vec<Value> },
    Brz { cond: Value, destination: Ebb, args: Vec<Value> },
    Brnz { cond: Value, destination: Ebb, args: Vec<Value> },
    BrTable { selector: Value, table: JumpTable },
    Return { args: Vec<Value> },
    Trap { code: TrapCode },
    UseVar { local: u32 },
    DefVar { local: u32, value: Value },
    Iconst { ty: Type, imm: i64 },
    F32const { bits: u32 },
    F64const { bits: u64 },
    Unary { opcode: UnaryOpcode, arg: Value },
    Binary { opcode: BinaryOpcode, lhs: Value, rhs: Value },
    Conversion { opcode: ConversionOpcode, ty: Type, arg: Value },
    Icmp { cond: IntCC, lhs: Value, rhs: Value },
    IcmpImm { cond: IntCC, arg: Value, imm: i64 },
    Fcmp { cond: FloatCC, lhs: Value, rhs: Value },
    Bint { ty: Type, arg: Value },
    Select { cond: Value, if_true: Value, if_false: Value },
    GlobalAddr { ty: Type, global: GlobalVar },
    Load { opcode: LoadOpcode, ty: Type, offset: i32, base: Value },
    Store { opcode: StoreOpcode, value: Value, offset: i32, base: Value },
    HeapAddr { ty: Type, heap: Heap, addr: Value, size: u32 },
    IaddImm { arg: Value, imm: i64 },
    Call { func: FuncRef, args: Vec<Value> },
    CallIndirect { sig: SigRef, table: u32, callee: Value, args: Vec<Value> },
    GrowMemory { heap: Heap, delta: Value },
    CurrentMemory { heap: Heap },
}

/// Where an SSA value comes from.
#[derive(Clone, Copy, Debug, PartialEq, Eq, Structural)]
pub enum ValueDef {
    /// The `num`-th result of an instruction.
    InstResult { inst: Inst, num: usize },
    /// A parameter of a block, of the given type; a block's parameters are numbered in the
    /// order in which they were appended.
    EbbParam { ebb: Ebb, ty: Type },
}

/// A heap of the function: the memory it stands for and the size of its guard region.
#[derive(Clone, Copy, Debug, PartialEq, Eq, Structural)]
pub struct HeapData {
    pub memory: u32,
    pub guard_size: u64,
}

} // verus!
