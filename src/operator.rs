//! The WebAssembly operators that the translator consumes, as a decoder delivers them, and
//! the IR instruction that each numeric operator maps to.
use vstd::prelude::*;
use crate::ir::{ConversionOpcode, FloatCC, IntCC, LoadOpcode, StoreOpcode, Type, UnaryOpcode, BinaryOpcode};

verus! {

/// The result type of a structured construct.
#[derive(Clone, Copy, Debug, PartialEq, Eq, Structural)]
pub enum BlockType {
    /// The construct produces no value.
    EmptyBlock,
    /// The construct produces one value of this type.
    Value(Type),
}

/// The alignment hint and static offset of a memory access.
#[derive(Clone, Copy, Debug, PartialEq, Eq, Structural)]
pub struct MemoryImmediate {
    pub flags: u32,
    pub offset: u32,
}

/// A WebAssembly MVP operator. Float constants are carried as their bit patterns.
#[derive(Clone, Debug)]
pub enum Operator {
    Unreachable,
    Nop,
    Block { ty: BlockType },
    Loop { ty: BlockType },
    If { ty: BlockType },
    Else,
    End,
    Br { relative_depth: u32 },
    BrIf { relative_depth: u32 },
    BrTable { targets: Vec<u32>, default: u32 },
    Return,
    Call { function_index: u32 },
    CallIndirect { index: u32, table_index: u32 },
    Drop,
    Select,
    GetLocal { local_index: u32 },
    SetLocal { local_index: u32 },
    TeeLocal { local_index: u32 },
    GetGlobal { global_index: u32 },
    SetGlobal { global_index: u32 },
    CurrentMemory { reserved: u32 },
    GrowMemory { reserved: u32 },
    I32Const { value: i32 },
    I64Const { value: i64 },
    F32Const { bits: u32 },
    F64Const { bits: u64 },
    I32Load { memarg: MemoryImmediate },
    I64Load { memarg: MemoryImmediate },
    F32Load { memarg: MemoryImmediate },
    F64Load { memarg: MemoryImmediate },
    I32Load8S { memarg: MemoryImmediate },
    I32Load8U { memarg: MemoryImmediate },
    I32Load16S { memarg: MemoryImmediate },
    I32Load16U { memarg: MemoryImmediate },
    I64Load8S { memarg: MemoryImmediate },
    I64Load8U { memarg: MemoryImmediate },
    I64Load16S { memarg: MemoryImmediate },
    I64Load16U { memarg: MemoryImmediate },
    I64Load32S { memarg: MemoryImmediate },
    I64Load32U { memarg: MemoryImmediate },
    I32Store { memarg: MemoryImmediate },
    I64Store { memarg: MemoryImmediate },
    F32Store { memarg: MemoryImmediate },
    F64Store { memarg: MemoryImmediate },
    I32Store8 { memarg: MemoryImmediate },
    I32Store16 { memarg: MemoryImmediate },
    I64Store8 { memarg: MemoryImmediate },
    I64Store16 { memarg: MemoryImmediate },
    I64Store32 { memarg: MemoryImmediate },
    I32Eqz,
    I64Eqz,
    I32Eq,
    I32Ne,
    I32LtS,
    I32LtU,
    I32GtS,
    I32GtU,
    I32LeS,
    I32LeU,
    I32GeS,
    I32GeU,
    I64Eq,
    I64Ne,
    I64LtS,
    I64LtU,
    I64GtS,
    I64GtU,
    I64LeS,
    I64LeU,
    I64GeS,
    I64GeU,
    F32Eq,
    F32Ne,
    F32Lt,
    F32Gt,
    F32Le,
    F32Ge,
    F64Eq,
    F64Ne,
    F64Lt,
    F64Gt,
    F64Le,
    F64Ge,
    I32Clz,
    I32Ctz,
    I32Popcnt,
    I64Clz,
    I64Ctz,
    I64Popcnt,
    F32Abs,
    F32Neg,
    F32Ceil,
    F32Floor,
    F32Trunc,
    F32Nearest,
    F32Sqrt,
    F64Abs,
    F64Neg,
    F64Ceil,
    F64Floor,
    F64Trunc,
    F64Nearest,
    F64Sqrt,
    I32Add,
    I32Sub,
    I32Mul,
    I32DivS,
    I32DivU,
    I32RemS,
    I32RemU,
    I32And,
    I32Or,
    I32Xor,
    I32Shl,
    I32ShrS,
    I32ShrU,
    I32Rotl,
    I32Rotr,
    I64Add,
    I64Sub,
    I64Mul,
    I64DivS,
    I64DivU,
    I64RemS,
    I64RemU,
    I64And,
    I64Or,
    I64Xor,
    I64Shl,
    I64ShrS,
    I64ShrU,
    I64Rotl,
    I64Rotr,
    F32Add,
    F32Sub,
    F32Mul,
    F32Div,
    F32Min,
    F32Max,
    F32Copysign,
    F64Add,
    F64Sub,
    F64Mul,
    F64Div,
    F64Min,
    F64Max,
    F64Copysign,
    I32WrapI64,
    I32TruncSF32,
    I32TruncUF32,
    I32TruncSF64,
    I32TruncUF64,
    I64ExtendSI32,
    I64ExtendUI32,
    I64TruncSF32,
    I64TruncUF32,
    I64TruncSF64,
    I64TruncUF64,
    F32ConvertSI32,
    F32ConvertUI32,
    F32ConvertSI64,
    F32ConvertUI64,
    F32DemoteF64,
    F64ConvertSI32,
    F64ConvertUI32,
    F64ConvertSI64,
    F64ConvertUI64,
    F64PromoteF32,
    I32ReinterpretF32,
    I64ReinterpretF64,
    F32ReinterpretI32,
    F64ReinterpretI64,
    I32TruncSSatF32,
    I32TruncUSatF32,
    I32TruncSSatF64,
    I32TruncUSatF64,
    I64TruncSSatF32,
    I64TruncUSatF32,
    I64TruncSSatF64,
    I64TruncUSatF64,}

/// The IR type of the value a construct of type `ty` produces, if any.
pub open spec fn block_value_type(ty: BlockType) -> Option<Type> {
    match ty {
        BlockType::EmptyBlock => None,
        BlockType::Value(t) => Some(t),
    }
}

/// The number of values a construct of type `ty` produces.
pub open spec fn block_arity(ty: BlockType) -> usize {
    match ty {
        BlockType::EmptyBlock => 0,
        BlockType::Value(_) => 1,
    }
}

/// The IR type of the value a construct of type `ty` produces, if any.
pub fn type_to_type(ty: &BlockType) -> (r: Option<Type>)
    ensures
        r == block_value_type(*ty),
{
    match ty {
        BlockType::EmptyBlock => None,
        BlockType::Value(t) => Some(*t),
    }
}

/// The number of values a construct of type `ty` produces.
pub fn num_return_values(ty: &BlockType) -> (r: usize)
    ensures
        r == block_arity(*ty),
{
    match ty {
        BlockType::EmptyBlock => 0,
        BlockType::Value(_) => 1,
    }
}

/// Whether the operator is one of the saturating float-to-int conversions.
pub open spec fn is_saturating(op: Operator) -> bool {
    match op {
        Operator::I32TruncSSatF32 => true,
        Operator::I32TruncUSatF32 => true,
        Operator::I32TruncSSatF64 => true,
        Operator::I32TruncUSatF64 => true,
        Operator::I64TruncSSatF32 => true,
        Operator::I64TruncUSatF32 => true,
        Operator::I64TruncSSatF64 => true,
        Operator::I64TruncUSatF64 => true,
        _ => false,
    }
}

/// The condition of an integer comparison.
pub open spec fn int_compare(op: Operator) -> Option<IntCC> {
    match op {
        Operator::I32Eq => Some(IntCC::Equal),
        Operator::I32Ne => Some(IntCC::NotEqual),
        Operator::I32LtS => Some(IntCC::SignedLessThan),
        Operator::I32LtU => Some(IntCC::UnsignedLessThan),
        Operator::I32GtS => Some(IntCC::SignedGreaterThan),
        Operator::I32GtU => Some(IntCC::UnsignedGreaterThan),
        Operator::I32LeS => Some(IntCC::SignedLessThanOrEqual),
        Operator::I32LeU => Some(IntCC::UnsignedLessThanOrEqual),
        Operator::I32GeS => Some(IntCC::SignedGreaterThanOrEqual),
        Operator::I32GeU => Some(IntCC::UnsignedGreaterThanOrEqual),
        Operator::I64Eq => Some(IntCC::Equal),
        Operator::I64Ne => Some(IntCC::NotEqual),
        Operator::I64LtS => Some(IntCC::SignedLessThan),
        Operator::I64LtU => Some(IntCC::UnsignedLessThan),
        Operator::I64GtS => Some(IntCC::SignedGreaterThan),
        Operator::I64GtU => Some(IntCC::UnsignedGreaterThan),
        Operator::I64LeS => Some(IntCC::SignedLessThanOrEqual),
        Operator::I64LeU => Some(IntCC::UnsignedLessThanOrEqual),
        Operator::I64GeS => Some(IntCC::SignedGreaterThanOrEqual),
        Operator::I64GeU => Some(IntCC::UnsignedGreaterThanOrEqual),
        _ => None,
    }
}

/// The condition of an integer comparison.
pub fn int_compare_of(op: &Operator) -> (r: Option<IntCC>)
    ensures
        r == int_compare(*op),
{
    match op {
        Operator::I32Eq => Some(IntCC::Equal),
        Operator::I32Ne => Some(IntCC::NotEqual),
        Operator::I32LtS => Some(IntCC::SignedLessThan),
        Operator::I32LtU => Some(IntCC::UnsignedLessThan),
        Operator::I32GtS => Some(IntCC::SignedGreaterThan),
        Operator::I32GtU => Some(IntCC::UnsignedGreaterThan),
        Operator::I32LeS => Some(IntCC::SignedLessThanOrEqual),
        Operator::I32LeU => Some(IntCC::UnsignedLessThanOrEqual),
        Operator::I32GeS => Some(IntCC::SignedGreaterThanOrEqual),
        Operator::I32GeU => Some(IntCC::UnsignedGreaterThanOrEqual),
        Operator::I64Eq => Some(IntCC::Equal),
        Operator::I64Ne => Some(IntCC::NotEqual),
        Operator::I64LtS => Some(IntCC::SignedLessThan),
        Operator::I64LtU => Some(IntCC::UnsignedLessThan),
        Operator::I64GtS => Some(IntCC::SignedGreaterThan),
        Operator::I64GtU => Some(IntCC::UnsignedGreaterThan),
        Operator::I64LeS => Some(IntCC::SignedLessThanOrEqual),
        Operator::I64LeU => Some(IntCC::UnsignedLessThanOrEqual),
        Operator::I64GeS => Some(IntCC::SignedGreaterThanOrEqual),
        Operator::I64GeU => Some(IntCC::UnsignedGreaterThanOrEqual),
        _ => None,
    }
}

/// The condition of a floating-point comparison.
pub open spec fn float_compare(op: Operator) -> Option<FloatCC> {
    match op {
        Operator::F32Eq => Some(FloatCC::Equal),
        Operator::F32Ne => Some(FloatCC::NotEqual),
        Operator::F32Lt => Some(FloatCC::LessThan),
        Operator::F32Gt => Some(FloatCC::GreaterThan),
        Operator::F32Le => Some(FloatCC::LessThanOrEqual),
        Operator::F32Ge => Some(FloatCC::GreaterThanOrEqual),
        Operator::F64Eq => Some(FloatCC::Equal),
        Operator::F64Ne => Some(FloatCC::NotEqual),
        Operator::F64Lt => Some(FloatCC::LessThan),
        Operator::F64Gt => Some(FloatCC::GreaterThan),
        Operator::F64Le => Some(FloatCC::LessThanOrEqual),
        Operator::F64Ge => Some(FloatCC::GreaterThanOrEqual),
        _ => None,
    }
}

/// The condition of a floating-point comparison.
pub fn float_compare_of(op: &Operator) -> (r: Option<FloatCC>)
    ensures
        r == float_compare(*op),
{
    match op {
        Operator::F32Eq => Some(FloatCC::Equal),
        Operator::F32Ne => Some(FloatCC::NotEqual),
        Operator::F32Lt => Some(FloatCC::LessThan),
        Operator::F32Gt => Some(FloatCC::GreaterThan),
        Operator::F32Le => Some(FloatCC::LessThanOrEqual),
        Operator::F32Ge => Some(FloatCC::GreaterThanOrEqual),
        Operator::F64Eq => Some(FloatCC::Equal),
        Operator::F64Ne => Some(FloatCC::NotEqual),
        Operator::F64Lt => Some(FloatCC::LessThan),
        Operator::F64Gt => Some(FloatCC::GreaterThan),
        Operator::F64Le => Some(FloatCC::LessThanOrEqual),
        Operator::F64Ge => Some(FloatCC::GreaterThanOrEqual),
        _ => None,
    }
}

/// The instruction of a single-operand operator.
pub open spec fn unary_opcode(op: Operator) -> Option<UnaryOpcode> {
    match op {
        Operator::I32Clz => Some(UnaryOpcode::Clz),
        Operator::I32Ctz => Some(UnaryOpcode::Ctz),
        Operator::I32Popcnt => Some(UnaryOpcode::Popcnt),
        Operator::I64Clz => Some(UnaryOpcode::Clz),
        Operator::I64Ctz => Some(UnaryOpcode::Ctz),
        Operator::I64Popcnt => Some(UnaryOpcode::Popcnt),
        Operator::F32Abs => Some(UnaryOpcode::Fabs),
        Operator::F32Neg => Some(UnaryOpcode::Fneg),
        Operator::F32Ceil => Some(UnaryOpcode::Ceil),
        Operator::F32Floor => Some(UnaryOpcode::Floor),
        Operator::F32Trunc => Some(UnaryOpcode::Trunc),
        Operator::F32Nearest => Some(UnaryOpcode::Nearest),
        Operator::F32Sqrt => Some(UnaryOpcode::Sqrt),
        Operator::F64Abs => Some(UnaryOpcode::Fabs),
        Operator::F64Neg => Some(UnaryOpcode::Fneg),
        Operator::F64Ceil => Some(UnaryOpcode::Ceil),
        Operator::F64Floor => Some(UnaryOpcode::Floor),
        Operator::F64Trunc => Some(UnaryOpcode::Trunc),
        Operator::F64Nearest => Some(UnaryOpcode::Nearest),
        Operator::F64Sqrt => Some(UnaryOpcode::Sqrt),
        _ => None,
    }
}

/// The instruction of a single-operand operator.
pub fn unary_opcode_of(op: &Operator) -> (r: Option<UnaryOpcode>)
    ensures
        r == unary_opcode(*op),
{
    match op {
        Operator::I32Clz => Some(UnaryOpcode::Clz),
        Operator::I32Ctz => Some(UnaryOpcode::Ctz),
        Operator::I32Popcnt => Some(UnaryOpcode::Popcnt),
        Operator::I64Clz => Some(UnaryOpcode::Clz),
        Operator::I64Ctz => Some(UnaryOpcode::Ctz),
        Operator::I64Popcnt => Some(UnaryOpcode::Popcnt),
        Operator::F32Abs => Some(UnaryOpcode::Fabs),
        Operator::F32Neg => Some(UnaryOpcode::Fneg),
        Operator::F32Ceil => Some(UnaryOpcode::Ceil),
        Operator::F32Floor => Some(UnaryOpcode::Floor),
        Operator::F32Trunc => Some(UnaryOpcode::Trunc),
        Operator::F32Nearest => Some(UnaryOpcode::Nearest),
        Operator::F32Sqrt => Some(UnaryOpcode::Sqrt),
        Operator::F64Abs => Some(UnaryOpcode::Fabs),
        Operator::F64Neg => Some(UnaryOpcode::Fneg),
        Operator::F64Ceil => Some(UnaryOpcode::Ceil),
        Operator::F64Floor => Some(UnaryOpcode::Floor),
        Operator::F64Trunc => Some(UnaryOpcode::Trunc),
        Operator::F64Nearest => Some(UnaryOpcode::Nearest),
        Operator::F64Sqrt => Some(UnaryOpcode::Sqrt),
        _ => None,
    }
}

/// The instruction of a two-operand operator.
pub open spec fn binary_opcode(op: Operator) -> Option<BinaryOpcode> {
    match op {
        Operator::I32Add => Some(BinaryOpcode::Iadd),
        Operator::I32Sub => Some(BinaryOpcode::Isub),
        Operator::I32Mul => Some(BinaryOpcode::Imul),
        Operator::I32DivS => Some(BinaryOpcode::Sdiv),
        Operator::I32DivU => Some(BinaryOpcode::Udiv),
        Operator::I32RemS => Some(BinaryOpcode::Srem),
        Operator::I32RemU => Some(BinaryOpcode::Urem),
        Operator::I32And => Some(BinaryOpcode::Band),
        Operator::I32Or => Some(BinaryOpcode::Bor),
        Operator::I32Xor => Some(BinaryOpcode::Bxor),
        Operator::I32Shl => Some(BinaryOpcode::Ishl),
        Operator::I32ShrS => Some(BinaryOpcode::Sshr),
        Operator::I32ShrU => Some(BinaryOpcode::Ushr),
        Operator::I32Rotl => Some(BinaryOpcode::Rotl),
        Operator::I32Rotr => Some(BinaryOpcode::Rotr),
        Operator::I64Add => Some(BinaryOpcode::Iadd),
        Operator::I64Sub => Some(BinaryOpcode::Isub),
        Operator::I64Mul => Some(BinaryOpcode::Imul),
        Operator::I64DivS => Some(BinaryOpcode::Sdiv),
        Operator::I64DivU => Some(BinaryOpcode::Udiv),
        Operator::I64RemS => Some(BinaryOpcode::Srem),
        Operator::I64RemU => Some(BinaryOpcode::Urem),
        Operator::I64And => Some(BinaryOpcode::Band),
        Operator::I64Or => Some(BinaryOpcode::Bor),
        Operator::I64Xor => Some(BinaryOpcode::Bxor),
        Operator::I64Shl => Some(BinaryOpcode::Ishl),
        Operator::I64ShrS => Some(BinaryOpcode::Sshr),
        Operator::I64ShrU => Some(BinaryOpcode::Ushr),
        Operator::I64Rotl => Some(BinaryOpcode::Rotl),
        Operator::I64Rotr => Some(BinaryOpcode::Rotr),
        Operator::F32Add => Some(BinaryOpcode::Fadd),
        Operator::F32Sub => Some(BinaryOpcode::Fsub),
        Operator::F32Mul => Some(BinaryOpcode::Fmul),
        Operator::F32Div => Some(BinaryOpcode::Fdiv),
        Operator::F32Min => Some(BinaryOpcode::Fmin),
        Operator::F32Max => Some(BinaryOpcode::Fmax),
        Operator::F32Copysign => Some(BinaryOpcode::Fcopysign),
        Operator::F64Add => Some(BinaryOpcode::Fadd),
        Operator::F64Sub => Some(BinaryOpcode::Fsub),
        Operator::F64Mul => Some(BinaryOpcode::Fmul),
        Operator::F64Div => Some(BinaryOpcode::Fdiv),
        Operator::F64Min => Some(BinaryOpcode::Fmin),
        Operator::F64Max => Some(BinaryOpcode::Fmax),
        Operator::F64Copysign => Some(BinaryOpcode::Fcopysign),
        _ => None,
    }
}

/// The instruction of a two-operand operator.
pub fn binary_opcode_of(op: &Operator) -> (r: Option<BinaryOpcode>)
    ensures
        r == binary_opcode(*op),
{
    match op {
        Operator::I32Add => Some(BinaryOpcode::Iadd),
        Operator::I32Sub => Some(BinaryOpcode::Isub),
        Operator::I32Mul => Some(BinaryOpcode::Imul),
        Operator::I32DivS => Some(BinaryOpcode::Sdiv),
        Operator::I32DivU => Some(BinaryOpcode::Udiv),
        Operator::I32RemS => Some(BinaryOpcode::Srem),
        Operator::I32RemU => Some(BinaryOpcode::Urem),
        Operator::I32And => Some(BinaryOpcode::Band),
        Operator::I32Or => Some(BinaryOpcode::Bor),
        Operator::I32Xor => Some(BinaryOpcode::Bxor),
        Operator::I32Shl => Some(BinaryOpcode::Ishl),
        Operator::I32ShrS => Some(BinaryOpcode::Sshr),
        Operator::I32ShrU => Some(BinaryOpcode::Ushr),
        Operator::I32Rotl => Some(BinaryOpcode::Rotl),
        Operator::I32Rotr => Some(BinaryOpcode::Rotr),
        Operator::I64Add => Some(BinaryOpcode::Iadd),
        Operator::I64Sub => Some(BinaryOpcode::Isub),
        Operator::I64Mul => Some(BinaryOpcode::Imul),
        Operator::I64DivS => Some(BinaryOpcode::Sdiv),
        Operator::I64DivU => Some(BinaryOpcode::Udiv),
        Operator::I64RemS => Some(BinaryOpcode::Srem),
        Operator::I64RemU => Some(BinaryOpcode::Urem),
        Operator::I64And => Some(BinaryOpcode::Band),
        Operator::I64Or => Some(BinaryOpcode::Bor),
        Operator::I64Xor => Some(BinaryOpcode::Bxor),
        Operator::I64Shl => Some(BinaryOpcode::Ishl),
        Operator::I64ShrS => Some(BinaryOpcode::Sshr),
        Operator::I64ShrU => Some(BinaryOpcode::Ushr),
        Operator::I64Rotl => Some(BinaryOpcode::Rotl),
        Operator::I64Rotr => Some(BinaryOpcode::Rotr),
        Operator::F32Add => Some(BinaryOpcode::Fadd),
        Operator::F32Sub => Some(BinaryOpcode::Fsub),
        Operator::F32Mul => Some(BinaryOpcode::Fmul),
        Operator::F32Div => Some(BinaryOpcode::Fdiv),
        Operator::F32Min => Some(BinaryOpcode::Fmin),
        Operator::F32Max => Some(BinaryOpcode::Fmax),
        Operator::F32Copysign => Some(BinaryOpcode::Fcopysign),
        Operator::F64Add => Some(BinaryOpcode::Fadd),
        Operator::F64Sub => Some(BinaryOpcode::Fsub),
        Operator::F64Mul => Some(BinaryOpcode::Fmul),
        Operator::F64Div => Some(BinaryOpcode::Fdiv),
        Operator::F64Min => Some(BinaryOpcode::Fmin),
        Operator::F64Max => Some(BinaryOpcode::Fmax),
        Operator::F64Copysign => Some(BinaryOpcode::Fcopysign),
        _ => None,
    }
}

/// The instruction and result type of a conversion.
pub open spec fn conversion(op: Operator) -> Option<(ConversionOpcode, Type)> {
    match op {
        Operator::I32WrapI64 => Some((ConversionOpcode::Ireduce, Type::I32)),
        Operator::I32TruncSF32 => Some((ConversionOpcode::FcvtToSint, Type::I32)),
        Operator::I32TruncUF32 => Some((ConversionOpcode::FcvtToUint, Type::I32)),
        Operator::I32TruncSF64 => Some((ConversionOpcode::FcvtToSint, Type::I32)),
        Operator::I32TruncUF64 => Some((ConversionOpcode::FcvtToUint, Type::I32)),
        Operator::I64ExtendSI32 => Some((ConversionOpcode::Sextend, Type::I64)),
        Operator::I64ExtendUI32 => Some((ConversionOpcode::Uextend, Type::I64)),
        Operator::I64TruncSF32 => Some((ConversionOpcode::FcvtToSint, Type::I64)),
        Operator::I64TruncUF32 => Some((ConversionOpcode::FcvtToUint, Type::I64)),
        Operator::I64TruncSF64 => Some((ConversionOpcode::FcvtToSint, Type::I64)),
        Operator::I64TruncUF64 => Some((ConversionOpcode::FcvtToUint, Type::I64)),
        Operator::F32ConvertSI32 => Some((ConversionOpcode::FcvtFromSint, Type::F32)),
        Operator::F32ConvertUI32 => Some((ConversionOpcode::FcvtFromUint, Type::F32)),
        Operator::F32ConvertSI64 => Some((ConversionOpcode::FcvtFromSint, Type::F32)),
        Operator::F32ConvertUI64 => Some((ConversionOpcode::FcvtFromUint, Type::F32)),
        Operator::F32DemoteF64 => Some((ConversionOpcode::Fdemote, Type::F32)),
        Operator::F64ConvertSI32 => Some((ConversionOpcode::FcvtFromSint, Type::F64)),
        Operator::F64ConvertUI32 => Some((ConversionOpcode::FcvtFromUint, Type::F64)),
        Operator::F64ConvertSI64 => Some((ConversionOpcode::FcvtFromSint, Type::F64)),
        Operator::F64ConvertUI64 => Some((ConversionOpcode::FcvtFromUint, Type::F64)),
        Operator::F64PromoteF32 => Some((ConversionOpcode::Fpromote, Type::F64)),
        Operator::I32ReinterpretF32 => Some((ConversionOpcode::Bitcast, Type::I32)),
        Operator::I64ReinterpretF64 => Some((ConversionOpcode::Bitcast, Type::I64)),
        Operator::F32ReinterpretI32 => Some((ConversionOpcode::Bitcast, Type::F32)),
        Operator::F64ReinterpretI64 => Some((ConversionOpcode::Bitcast, Type::F64)),
        _ => None,
    }
}

/// The instruction and result type of a conversion.
pub fn conversion_of(op: &Operator) -> (r: Option<(ConversionOpcode, Type)>)
    ensures
        r == conversion(*op),
{
    match op {
        Operator::I32WrapI64 => Some((ConversionOpcode::Ireduce, Type::I32)),
        Operator::I32TruncSF32 => Some((ConversionOpcode::FcvtToSint, Type::I32)),
        Operator::I32TruncUF32 => Some((ConversionOpcode::FcvtToUint, Type::I32)),
        Operator::I32TruncSF64 => Some((ConversionOpcode::FcvtToSint, Type::I32)),
        Operator::I32TruncUF64 => Some((ConversionOpcode::FcvtToUint, Type::I32)),
        Operator::I64ExtendSI32 => Some((ConversionOpcode::Sextend, Type::I64)),
        Operator::I64ExtendUI32 => Some((ConversionOpcode::Uextend, Type::I64)),
        Operator::I64TruncSF32 => Some((ConversionOpcode::FcvtToSint, Type::I64)),
        Operator::I64TruncUF32 => Some((ConversionOpcode::FcvtToUint, Type::I64)),
        Operator::I64TruncSF64 => Some((ConversionOpcode::FcvtToSint, Type::I64)),
        Operator::I64TruncUF64 => Some((ConversionOpcode::FcvtToUint, Type::I64)),
        Operator::F32ConvertSI32 => Some((ConversionOpcode::FcvtFromSint, Type::F32)),
        Operator::F32ConvertUI32 => Some((ConversionOpcode::FcvtFromUint, Type::F32)),
        Operator::F32ConvertSI64 => Some((ConversionOpcode::FcvtFromSint, Type::F32)),
        Operator::F32ConvertUI64 => Some((ConversionOpcode::FcvtFromUint, Type::F32)),
        Operator::F32DemoteF64 => Some((ConversionOpcode::Fdemote, Type::F32)),
        Operator::F64ConvertSI32 => Some((ConversionOpcode::FcvtFromSint, Type::F64)),
        Operator::F64ConvertUI32 => Some((ConversionOpcode::FcvtFromUint, Type::F64)),
        Operator::F64ConvertSI64 => Some((ConversionOpcode::FcvtFromSint, Type::F64)),
        Operator::F64ConvertUI64 => Some((ConversionOpcode::FcvtFromUint, Type::F64)),
        Operator::F64PromoteF32 => Some((ConversionOpcode::Fpromote, Type::F64)),
        Operator::I32ReinterpretF32 => Some((ConversionOpcode::Bitcast, Type::I32)),
        Operator::I64ReinterpretF64 => Some((ConversionOpcode::Bitcast, Type::I64)),
        Operator::F32ReinterpretI32 => Some((ConversionOpcode::Bitcast, Type::F32)),
        Operator::F64ReinterpretI64 => Some((ConversionOpcode::Bitcast, Type::F64)),
        _ => None,
    }
}

/// The instruction and result type of a load.
pub open spec fn load_kind(op: Operator) -> Option<(LoadOpcode, Type)> {
    match op {
        Operator::I32Load { .. } => Some((LoadOpcode::Load, Type::I32)),
        Operator::I64Load { .. } => Some((LoadOpcode::Load, Type::I64)),
        Operator::F32Load { .. } => Some((LoadOpcode::Load, Type::F32)),
        Operator::F64Load { .. } => Some((LoadOpcode::Load, Type::F64)),
        Operator::I32Load8S { .. } => Some((LoadOpcode::Sload8, Type::I32)),
        Operator::I32Load8U { .. } => Some((LoadOpcode::Uload8, Type::I32)),
        Operator::I32Load16S { .. } => Some((LoadOpcode::Sload16, Type::I32)),
        Operator::I32Load16U { .. } => Some((LoadOpcode::Uload16, Type::I32)),
        Operator::I64Load8S { .. } => Some((LoadOpcode::Sload8, Type::I64)),
        Operator::I64Load8U { .. } => Some((LoadOpcode::Uload8, Type::I64)),
        Operator::I64Load16S { .. } => Some((LoadOpcode::Sload16, Type::I64)),
        Operator::I64Load16U { .. } => Some((LoadOpcode::Uload16, Type::I64)),
        Operator::I64Load32S { .. } => Some((LoadOpcode::Sload32, Type::I64)),
        Operator::I64Load32U { .. } => Some((LoadOpcode::Uload32, Type::I64)),
        _ => None,
    }
}

/// The instruction and result type of a load.
pub fn load_kind_of(op: &Operator) -> (r: Option<(LoadOpcode, Type)>)
    ensures
        r == load_kind(*op),
{
    match op {
        Operator::I32Load { .. } => Some((LoadOpcode::Load, Type::I32)),
        Operator::I64Load { .. } => Some((LoadOpcode::Load, Type::I64)),
        Operator::F32Load { .. } => Some((LoadOpcode::Load, Type::F32)),
        Operator::F64Load { .. } => Some((LoadOpcode::Load, Type::F64)),
        Operator::I32Load8S { .. } => Some((LoadOpcode::Sload8, Type::I32)),
        Operator::I32Load8U { .. } => Some((LoadOpcode::Uload8, Type::I32)),
        Operator::I32Load16S { .. } => Some((LoadOpcode::Sload16, Type::I32)),
        Operator::I32Load16U { .. } => Some((LoadOpcode::Uload16, Type::I32)),
        Operator::I64Load8S { .. } => Some((LoadOpcode::Sload8, Type::I64)),
        Operator::I64Load8U { .. } => Some((LoadOpcode::Uload8, Type::I64)),
        Operator::I64Load16S { .. } => Some((LoadOpcode::Sload16, Type::I64)),
        Operator::I64Load16U { .. } => Some((LoadOpcode::Uload16, Type::I64)),
        Operator::I64Load32S { .. } => Some((LoadOpcode::Sload32, Type::I64)),
        Operator::I64Load32U { .. } => Some((LoadOpcode::Uload32, Type::I64)),
        _ => None,
    }
}

/// The instruction of a store.
pub open spec fn store_kind(op: Operator) -> Option<StoreOpcode> {
    match op {
        Operator::I32Store { .. } => Some(StoreOpcode::Store),
        Operator::I64Store { .. } => Some(StoreOpcode::Store),
        Operator::F32Store { .. } => Some(StoreOpcode::Store),
        Operator::F64Store { .. } => Some(StoreOpcode::Store),
        Operator::I32Store8 { .. } => Some(StoreOpcode::Istore8),
        Operator::I32Store16 { .. } => Some(StoreOpcode::Istore16),
        Operator::I64Store8 { .. } => Some(StoreOpcode::Istore8),
        Operator::I64Store16 { .. } => Some(StoreOpcode::Istore16),
        Operator::I64Store32 { .. } => Some(StoreOpcode::Istore32),
        _ => None,
    }
}

/// The instruction of a store.
pub fn store_kind_of(op: &Operator) -> (r: Option<StoreOpcode>)
    ensures
        r == store_kind(*op),
{
    match op {
        Operator::I32Store { .. } => Some(StoreOpcode::Store),
        Operator::I64Store { .. } => Some(StoreOpcode::Store),
        Operator::F32Store { .. } => Some(StoreOpcode::Store),
        Operator::F64Store { .. } => Some(StoreOpcode::Store),
        Operator::I32Store8 { .. } => Some(StoreOpcode::Istore8),
        Operator::I32Store16 { .. } => Some(StoreOpcode::Istore16),
        Operator::I64Store8 { .. } => Some(StoreOpcode::Istore8),
        Operator::I64Store16 { .. } => Some(StoreOpcode::Istore16),
        Operator::I64Store32 { .. } => Some(StoreOpcode::Istore32),
        _ => None,
    }
}

/// The memory immediate of a load or a store.
pub open spec fn memarg(op: Operator) -> Option<MemoryImmediate> {
    match op {
        Operator::I32Load { memarg } |
        Operator::I64Load { memarg } |
        Operator::F32Load { memarg } |
        Operator::F64Load { memarg } |
        Operator::I32Load8S { memarg } |
        Operator::I32Load8U { memarg } |
        Operator::I32Load16S { memarg } |
        Operator::I32Load16U { memarg } |
        Operator::I64Load8S { memarg } |
        Operator::I64Load8U { memarg } |
        Operator::I64Load16S { memarg } |
        Operator::I64Load16U { memarg } |
        Operator::I64Load32S { memarg } |
        Operator::I64Load32U { memarg } |
        Operator::I32Store { memarg } |
        Operator::I64Store { memarg } |
        Operator::F32Store { memarg } |
        Operator::F64Store { memarg } |
        Operator::I32Store8 { memarg } |
        Operator::I32Store16 { memarg } |
        Operator::I64Store8 { memarg } |
        Operator::I64Store16 { memarg } |
        Operator::I64Store32 { memarg } => Some(memarg),
        _ => None,
    }
}

/// The memory immediate of a load or a store.
pub fn memarg_of(op: &Operator) -> (r: Option<MemoryImmediate>)
    ensures
        r == memarg(*op),
{
    match op {
        Operator::I32Load { memarg } |
        Operator::I64Load { memarg } |
        Operator::F32Load { memarg } |
        Operator::F64Load { memarg } |
        Operator::I32Load8S { memarg } |
        Operator::I32Load8U { memarg } |
        Operator::I32Load16S { memarg } |
        Operator::I32Load16U { memarg } |
        Operator::I64Load8S { memarg } |
        Operator::I64Load8U { memarg } |
        Operator::I64Load16S { memarg } |
        Operator::I64Load16U { memarg } |
        Operator::I64Load32S { memarg } |
        Operator::I64Load32U { memarg } |
        Operator::I32Store { memarg } |
        Operator::I64Store { memarg } |
        Operator::F32Store { memarg } |
        Operator::F64Store { memarg } |
        Operator::I32Store8 { memarg } |
        Operator::I32Store16 { memarg } |
        Operator::I64Store8 { memarg } |
        Operator::I64Store16 { memarg } |
        Operator::I64Store32 { memarg } => Some(*memarg),
        _ => None,
    }
}

/// Whether the operator is one of the saturating float-to-int conversions.
pub fn saturating(op: &Operator) -> (r: bool)
    ensures
        r == is_saturating(*op),
{
    match op {
        Operator::I32TruncSSatF32 |
        Operator::I32TruncUSatF32 |
        Operator::I32TruncSSatF64 |
        Operator::I32TruncUSatF64 |
        Operator::I64TruncSSatF32 |
        Operator::I64TruncUSatF32 |
        Operator::I64TruncSSatF64 |
        Operator::I64TruncUSatF64 => true,
        _ => false,
    }
}

} // verus!
