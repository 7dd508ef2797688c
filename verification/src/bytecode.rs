//! The instructions that the analysis reads.

use crate::types::{FunId, ModuleId, StructId, Type};
use vstd::prelude::*;

verus! {

/// A constant that an instruction loads.
#[derive(Debug, PartialEq, Eq)]
pub enum Constant {
    Bool(bool),
    U8(u8),
    U64(u64),
    U128(u128),
    Address(u128),
    ByteArray(Vec<u8>),
}

/// What a call instruction does with its operands.
#[derive(Debug, PartialEq, Eq)]
pub enum Operation {
    /// Calls the function `module::function<types>`.
    Function(ModuleId, FunId, Vec<Type>),
    Pack(ModuleId, StructId, Vec<Type>),
    Unpack(ModuleId, StructId, Vec<Type>),
    MoveTo(ModuleId, StructId, Vec<Type>),
    MoveFrom(ModuleId, StructId, Vec<Type>),
    Exists(ModuleId, StructId, Vec<Type>),
    BorrowLoc,
    /// Borrows the field with the given index of `module::struct<types>`.
    BorrowField(ModuleId, StructId, Vec<Type>, usize),
    BorrowGlobal(ModuleId, StructId, Vec<Type>),
    /// Reads the field with the given index of a struct value.
    GetField(ModuleId, StructId, Vec<Type>, usize),
    /// Reads a resource by value.
    GetGlobal(ModuleId, StructId, Vec<Type>),
    Destroy,
    ReadRef,
    WriteRef,
    FreezeRef,
    /// Assigns an unknown value.
    Havoc,
    CastU8,
    CastU64,
    CastU128,
    Not,
    Add,
    Sub,
    Mul,
    Div,
    Mod,
    BitOr,
    BitAnd,
    Xor,
    Shl,
    Shr,
    Lt,
    Gt,
    Le,
    Ge,
    Or,
    And,
    Eq,
    Neq,
}

/// One instruction of a procedure. Slots of the frame are named by their
/// index.
#[derive(Debug, PartialEq, Eq)]
pub enum Bytecode {
    /// `Assign(dest, src)` copies the slot `src` into the slot `dest`.
    Assign(usize, usize),
    /// `Call(dests, operation, operands)`.
    Call(Vec<usize>, Operation, Vec<usize>),
    /// Returns the values of the slots.
    Ret(Vec<usize>),
    /// `Load(dest, constant)`.
    Load(usize, Constant),
    /// `Branch(then_label, else_label, condition)`.
    Branch(usize, usize, usize),
    Jump(usize),
    Label(usize),
    /// Aborts with the code in the slot.
    Abort(usize),
    Nop,
    SaveMem,
    SaveSpecVar,
    Prop,
    SpecBlock,
}

} // verus!
