//! The instruction set of the CantaLoop stack machine.
//!
//! Instructions that load start with `Ld`, those that store with `St`.
//! `LdNum` carries the IEEE-754 bit pattern of its `f64` operand.
use vstd::prelude::*;

verus! {

/// One instruction of the stack machine.
#[derive(Debug, Clone, PartialEq)]
pub enum OpCode {
    /// Load a number, given by its `f64` bit pattern.
    LdNum(u64),
    /// Load a string.
    LdStr(String),
    /// Load a boolean.
    LdBool(bool),
    /// Load a variable.
    LdVar(u32),
    /// Load a constant.
    LdConst(u32),
    /// Load a function by its id.
    LdFunc(u32),
    Add,
    Sub,
    Mul,
    Div,
    Mod,
    Pow,
    /// Addition of two operands known to be numbers.
    AddNum,
    /// Multiplication of two operands known to be numbers.
    MulNum,
    /// Subtraction of two operands known to be numbers.
    SubNum,
    Eq,
    Ne,
    Gt,
    Lt,
    Ge,
    Le,
    And,
    Or,
    Neg,
    Not,
    /// Pop a value and store it in a variable.
    StVar(u32),
    /// Pop and discard a value.
    Pop,
    /// Print the value on top of the stack.
    Print,
    /// Call with the given number of stacked arguments.
    CallStack(u32),
    /// Prepare a call with the given number of arguments, without running it.
    Thunk(u32),
    /// Create a partial call: the bit `i` of `bound_mask` is set when argument
    /// `i` is bound, clear when it is a hole.
    MakePartial { func_id: u32, bound_mask: u64, hole_count: u32 },
    /// Pop `g`, then `f`, push the thunk computing `g(f(x))`.
    ComposeThunk,
    /// Run the thunk on top of the stack.
    Invoke,
    Ret,
    /// Run the thunk on top of the stack as a tail call.
    RetInvoke,
    /// Pop a value; jump to the target when it is false.
    JmpIfFalse(usize),
    /// Pop a value; jump to the target when it is true.
    JmpIfTrue(usize),
    /// Jump to the target.
    Jmp(usize),
    /// Build an array from the given number of stacked values.
    MakeArray(u32),
    /// Pop an array, push an iterator over it.
    ArrayIter,
    /// Pop an iterator, push whether more elements follow and the next element.
    ArrayNext,
    /// Pop an array and an index, push the element.
    ArrayIndex,
    /// Pop an array, start, end, step and inclusive flag, push the slice.
    ArraySlice,
    /// Pop an array and a function, push the mapped array.
    ArrayMap,
    /// Pop an array and a predicate, push the kept elements.
    ArrayFilter,
    /// Pop an array, an initial value and a function, push the folded value.
    ArrayFold,
    /// Build a struct of the given type from the given number of stacked fields.
    MakeStruct { type_id: u32, field_count: u32 },
    /// Pop a struct, push its field at the given index.
    GetField(u32),
}

/// The number of distinct instruction kinds.
pub const OPCODE_COUNT: usize = 48;

/// The dispatch index of each instruction kind.
pub open spec fn spec_discriminant(op: OpCode) -> u8 {
    match op {
        OpCode::LdNum(_) => 0,
        OpCode::LdStr(_) => 1,
        OpCode::LdBool(_) => 2,
        OpCode::LdVar(_) => 3,
        OpCode::LdConst(_) => 4,
        OpCode::LdFunc(_) => 5,
        OpCode::Add => 6,
        OpCode::Sub => 7,
        OpCode::Mul => 8,
        OpCode::Div => 9,
        OpCode::Mod => 10,
        OpCode::Pow => 11,
        OpCode::AddNum => 12,
        OpCode::MulNum => 13,
        OpCode::SubNum => 14,
        OpCode::Eq => 15,
        OpCode::Ne => 16,
        OpCode::Gt => 17,
        OpCode::Lt => 18,
        OpCode::Ge => 19,
        OpCode::Le => 20,
        OpCode::And => 21,
        OpCode::Or => 22,
        OpCode::Neg => 23,
        OpCode::Not => 24,
        OpCode::StVar(_) => 25,
        OpCode::Pop => 26,
        OpCode::Print => 27,
        OpCode::CallStack(_) => 28,
        OpCode::Thunk(_) => 29,
        OpCode::MakePartial { .. } => 30,
        OpCode::ComposeThunk => 31,
        OpCode::Invoke => 32,
        OpCode::Ret => 33,
        OpCode::RetInvoke => 34,
        OpCode::JmpIfFalse(_) => 35,
        OpCode::JmpIfTrue(_) => 36,
        OpCode::Jmp(_) => 37,
        OpCode::MakeArray(_) => 38,
        OpCode::ArrayIter => 39,
        OpCode::ArrayNext => 40,
        OpCode::ArrayIndex => 41,
        OpCode::ArraySlice => 42,
        OpCode::ArrayMap => 43,
        OpCode::ArrayFilter => 44,
        OpCode::ArrayFold => 45,
        OpCode::MakeStruct { .. } => 46,
        OpCode::GetField(_) => 47,
    }
}

impl OpCode {
    /// The index of this instruction's kind in a dispatch table.
    pub fn discriminant(&self) -> (d: u8)
        ensures
            d == spec_discriminant(*self),
            d < OPCODE_COUNT,
    {
        match self {
            OpCode::LdNum(_) => 0,
            OpCode::LdStr(_) => 1,
            OpCode::LdBool(_) => 2,
            OpCode::LdVar(_) => 3,
            OpCode::LdConst(_) => 4,
            OpCode::LdFunc(_) => 5,
            OpCode::Add => 6,
            OpCode::Sub => 7,
            OpCode::Mul => 8,
            OpCode::Div => 9,
            OpCode::Mod => 10,
            OpCode::Pow => 11,
            OpCode::AddNum => 12,
            OpCode::MulNum => 13,
            OpCode::SubNum => 14,
            OpCode::Eq => 15,
            OpCode::Ne => 16,
            OpCode::Gt => 17,
            OpCode::Lt => 18,
            OpCode::Ge => 19,
            OpCode::Le => 20,
            OpCode::And => 21,
            OpCode::Or => 22,
            OpCode::Neg => 23,
            OpCode::Not => 24,
            OpCode::StVar(_) => 25,
            OpCode::Pop => 26,
            OpCode::Print => 27,
            OpCode::CallStack(_) => 28,
            OpCode::Thunk(_) => 29,
            OpCode::MakePartial { .. } => 30,
            OpCode::ComposeThunk => 31,
            OpCode::Invoke => 32,
            OpCode::Ret => 33,
            OpCode::RetInvoke => 34,
            OpCode::JmpIfFalse(_) => 35,
            OpCode::JmpIfTrue(_) => 36,
            OpCode::Jmp(_) => 37,
            OpCode::MakeArray(_) => 38,
            OpCode::ArrayIter => 39,
            OpCode::ArrayNext => 40,
            OpCode::ArrayIndex => 41,
            OpCode::ArraySlice => 42,
            OpCode::ArrayMap => 43,
            OpCode::ArrayFilter => 44,
            OpCode::ArrayFold => 45,
            OpCode::MakeStruct { .. } => 46,
            OpCode::GetField(_) => 47,
        }
    }
}

} // verus!
