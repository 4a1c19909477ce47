//! Instructions of the intermediate representation.
use vstd::prelude::*;
use crate::parser::expression::{BinaryOperator, UnaryOperator};
use crate::parser::types::Type;
use crate::semantic::symbol::SymbolId;
use crate::util::text::{decimal, push_decimal, push_str, string_of};

verus! {

/// The machine type of a value.
#[derive(Debug, Clone, Copy, PartialEq, Eq, Structural)]
pub enum IrType {
    I8,
    I16,
    I32,
    Bool,
    Void,
}

/// The machine type of a source type: pointers and structs are handled
/// through word-sized addresses.
pub open spec fn spec_ir_type(t: Type) -> IrType {
    match t {
        Type::Int8 => IrType::I8,
        Type::Int16 => IrType::I16,
        Type::Int32 => IrType::I32,
        Type::Bool => IrType::Bool,
        Type::Void => IrType::Void,
        Type::Pointer(_) => IrType::I32,
        Type::Struct(_) => IrType::I32,
    }
}

/// The size in bytes of a value of a machine type.
pub open spec fn spec_size_bytes(t: IrType) -> usize {
    match t {
        IrType::I8 => 1,
        IrType::I16 => 2,
        IrType::I32 => 4,
        IrType::Bool => 1,
        IrType::Void => 0,
    }
}

/// The load/store width suffix of a machine type.
pub open spec fn spec_width_suffix(t: IrType) -> Seq<char> {
    match t {
        IrType::I8 => "b"@,
        IrType::I16 => "h"@,
        IrType::I32 => "w"@,
        IrType::Bool => "b"@,
        IrType::Void => ""@,
    }
}

impl IrType {
    /// The machine type of a source type.
    pub fn from(t: &Type) -> (r: IrType)
        ensures
            r == spec_ir_type(*t),
    {
        match t {
            Type::Int8 => IrType::I8,
            Type::Int16 => IrType::I16,
            Type::Int32 => IrType::I32,
            Type::Bool => IrType::Bool,
            Type::Void => IrType::Void,
            Type::Pointer(_) => IrType::I32,
            Type::Struct(_) => IrType::I32,
        }
    }

    /// The size in bytes of a value of this type.
    pub fn size_bytes(&self) -> (r: usize)
        ensures
            r == spec_size_bytes(*self),
    {
        match self {
            IrType::I8 => 1,
            IrType::I16 => 2,
            IrType::I32 => 4,
            IrType::Bool => 1,
            IrType::Void => 0,
        }
    }

    /// The load/store width suffix for this type (`b`, `h`, `w`).
    pub fn instruction(&self) -> (r: String)
        ensures
            r@ == spec_width_suffix(*self),
    {
        match self {
            IrType::I8 => string_of("b"),
            IrType::I16 => string_of("h"),
            IrType::I32 => string_of("w"),
            IrType::Bool => string_of("b"),
            IrType::Void => string_of(""),
        }
    }
}

/// A register.
#[derive(Debug, Clone, Copy, PartialEq, Eq, Structural)]
pub enum IrReg {
    Temp(usize),
    Arg(usize),
    RetVal,
    RetAddr,
}

/// The register-class letters of a register.
pub open spec fn spec_reg_prefix(r: IrReg) -> Seq<char> {
    match r {
        IrReg::Temp(_) => "t"@,
        IrReg::Arg(_) => "a"@,
        IrReg::RetVal => "v"@,
        IrReg::RetAddr => "ra"@,
    }
}

/// The number of a register within its class.
pub open spec fn spec_reg_number(r: IrReg) -> usize {
    match r {
        IrReg::Temp(n) => n,
        IrReg::Arg(n) => n,
        IrReg::RetVal => 0,
        IrReg::RetAddr => 0,
    }
}

impl IrReg {
    /// The register-class letters.
    fn prefix(&self) -> (r: String)
        ensures
            r@ == spec_reg_prefix(*self),
    {
        match self {
            IrReg::Temp(_) => string_of("t"),
            IrReg::Arg(_) => string_of("a"),
            IrReg::RetVal => string_of("v"),
            IrReg::RetAddr => string_of("ra"),
        }
    }

    /// The number within the class.
    fn value(&self) -> (r: usize)
        ensures
            r == spec_reg_number(*self),
    {
        match self {
            IrReg::Temp(n) => *n,
            IrReg::Arg(n) => *n,
            IrReg::RetVal => 0,
            IrReg::RetAddr => 0,
        }
    }

    /// The assembly name of the register, such as `$t0` or `$ra0`.
    pub fn to_text(&self) -> (r: String)
        ensures
            r@ == "$"@ + spec_reg_prefix(*self) + decimal(spec_reg_number(*self) as nat),
    {
        let mut s = string_of("$");
        let p = self.prefix();
        push_str(&mut s, p.as_str());
        push_decimal(&mut s, self.value());
        s
    }
}

/// An operand: an immediate or a register.
#[derive(Debug, Clone, Copy, PartialEq, Eq, Structural)]
pub enum IrValue {
    Immediate(i32),
    Reg(IrReg),
}

impl IrValue {
    /// The immediate's value, or `None` for a register.
    pub fn as_immediate(&self) -> (r: Option<i32>)
        ensures
            r == (match *self {
                IrValue::Immediate(n) => Some(n),
                IrValue::Reg(_) => None,
            }),
    {
        if let IrValue::Immediate(n) = self {
            Some(*n)
        } else {
            None
        }
    }
}

/// The condition of a conditional branch on a register.
#[derive(Debug, Clone, Copy, PartialEq, Eq, Structural)]
pub enum BranchType {
    EqZero,
    NeqZero,
}

/// An instruction.
#[derive(Debug, Clone, PartialEq)]
pub enum IrInstruction {
    SaveRa,
    Alloc { ir_type: IrType, symbol: SymbolId },
    AllocArray { slot: usize, elem_type: IrType, count: usize },
    LoadArrayBase { dest: IrReg, slot: usize },
    StoreImm { dest: IrReg, value: IrValue },
    StoreStack { ir_type: IrType, symbol: SymbolId, src: IrReg },
    LoadStack { ir_type: IrType, dest: IrReg, symbol: SymbolId },
    LoadAddr { dest: IrReg, symbol: SymbolId },
    StoreIndirect { ir_type: IrType, addr: IrReg, src: IrReg },
    LoadIndirect { ir_type: IrType, dest: IrReg, addr: IrReg },
    SpillTemp { slot: usize, src: IrReg },
    LoadTemp { slot: usize, dest: IrReg },
    BinaryOp { op: BinaryOperator, dest: IrReg, left: IrReg, right: IrReg },
    UnaryOp { op: UnaryOperator, dest: IrReg, operand: IrReg },
    Branch { reg: IrReg, label: String, branch_type: BranchType },
    Jump { label: String },
    Label { label_name: String },
    Call { function_name: String },
    Assembly { line: String },
    Ret,
}

/// A function in intermediate representation.
#[derive(Debug)]
pub struct IrFunction {
    pub name: String,
    pub return_type: IrType,
    pub instructions: Vec<IrInstruction>,
}

} // verus!
