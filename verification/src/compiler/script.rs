//! The requests that code generation makes of a native backend, written
//! down in order as a script that a backend can replay.
//!
//! A request that yields a handle (a function, a block, a value) is later
//! referred to by its index in the script.

use vstd::prelude::*;

verus! {

/// The types that the generated program uses.
#[derive(Clone, Copy, Debug, PartialEq, Eq, Structural)]
pub enum ValueType {
    Void,
    Int1,
    Int8,
    Int32,
    Int64,
    Int8Ptr,
}

/// What an emitted instruction takes as an argument.
#[derive(Clone, Copy, Debug, PartialEq, Eq, Structural)]
pub enum Operand {
    /// An integer constant of the given type, as its bit pattern.
    Const { ty: ValueType, value: u64 },
    /// The value that the request at index `op` of the script yielded.
    Value { op: usize },
}

/// One request to the backend.
#[derive(Debug, PartialEq, Eq)]
pub enum BackendOp {
    /// Declares a function of the module. Yields the function.
    AddFunction { name: String, params: Vec<ValueType>, ret: ValueType },
    /// Appends an empty block to a function. Yields the block.
    AppendBlock { function: usize, name: String },
    /// Moves the cursor of the instruction builder to the end of a block.
    PositionAtEnd { block: usize },
    /// Calls a function of the module by its name. Yields the result.
    Call { callee: String, args: Vec<Operand>, name: String },
    /// Reserves a stack slot. Yields a pointer to it.
    Alloca { ty: ValueType, name: String },
    /// Writes a value through a pointer.
    Store { value: Operand, pointer: Operand },
    /// Reads a value of the given type through a pointer. Yields it.
    Load { ty: ValueType, pointer: Operand },
    /// Adds two integers of one type, wrapping. Yields the sum.
    Add { lhs: Operand, rhs: Operand },
    /// Steps a byte pointer forward by an index. Yields the new pointer.
    ElementPointer { base: Operand, index: Operand },
    /// Cuts an integer down to a narrower type. Yields the result.
    Truncate { value: Operand, to: ValueType },
    /// Widens an integer, keeping its sign. Yields the result.
    SignExtend { value: Operand, to: ValueType },
    /// Tests a byte against zero. Yields a bit that is set if it differs.
    IsNotZero { value: Operand },
    /// Ends the current block with a jump.
    Branch { target: usize },
    /// Ends the current block with a jump to one of two blocks.
    BranchIf { condition: Operand, then_block: usize, else_block: usize },
    /// Ends the current block by returning from the function.
    Return { value: Operand },
}

/// A request as a mathematical value.
pub enum OpView {
    AddFunction { name: Seq<char>, params: Seq<ValueType>, ret: ValueType },
    AppendBlock { function: usize, name: Seq<char> },
    PositionAtEnd { block: usize },
    Call { callee: Seq<char>, args: Seq<Operand>, name: Seq<char> },
    Alloca { ty: ValueType, name: Seq<char> },
    Store { value: Operand, pointer: Operand },
    Load { ty: ValueType, pointer: Operand },
    Add { lhs: Operand, rhs: Operand },
    ElementPointer { base: Operand, index: Operand },
    Truncate { value: Operand, to: ValueType },
    SignExtend { value: Operand, to: ValueType },
    IsNotZero { value: Operand },
    Branch { target: usize },
    BranchIf { condition: Operand, then_block: usize, else_block: usize },
    Return { value: Operand },
}

impl View for BackendOp {
    type V = OpView;

    open spec fn view(&self) -> OpView {
        match self {
            BackendOp::AddFunction { name, params, ret } => OpView::AddFunction {
                name: name@,
                params: params@,
                ret: *ret,
            },
            BackendOp::AppendBlock { function, name } => OpView::AppendBlock {
                function: *function,
                name: name@,
            },
            BackendOp::PositionAtEnd { block } => OpView::PositionAtEnd { block: *block },
            BackendOp::Call { callee, args, name } => OpView::Call {
                callee: callee@,
                args: args@,
                name: name@,
            },
            BackendOp::Alloca { ty, name } => OpView::Alloca { ty: *ty, name: name@ },
            BackendOp::Store { value, pointer } => OpView::Store {
                value: *value,
                pointer: *pointer,
            },
            BackendOp::Load { ty, pointer } => OpView::Load { ty: *ty, pointer: *pointer },
            BackendOp::Add { lhs, rhs } => OpView::Add { lhs: *lhs, rhs: *rhs },
            BackendOp::ElementPointer { base, index } => OpView::ElementPointer {
                base: *base,
                index: *index,
            },
            BackendOp::Truncate { value, to } => OpView::Truncate { value: *value, to: *to },
            BackendOp::SignExtend { value, to } => OpView::SignExtend { value: *value, to: *to },
            BackendOp::IsNotZero { value } => OpView::IsNotZero { value: *value },
            BackendOp::Branch { target } => OpView::Branch { target: *target },
            BackendOp::BranchIf { condition, then_block, else_block } => OpView::BranchIf {
                condition: *condition,
                then_block: *then_block,
                else_block: *else_block,
            },
            BackendOp::Return { value } => OpView::Return { value: *value },
        }
    }
}

/// A script as a mathematical value: the views of its requests in order.
pub open spec fn script_view(script: Seq<BackendOp>) -> Seq<OpView> {
    Seq::new(script.len(), |i: int| script[i]@)
}

impl OpView {
    /// Whether the request yields a value that an operand can name.
    pub open spec fn yields_value(self) -> bool {
        match self {
            OpView::Call { .. } => true,
            OpView::Alloca { .. } => true,
            OpView::Load { .. } => true,
            OpView::Add { .. } => true,
            OpView::ElementPointer { .. } => true,
            OpView::Truncate { .. } => true,
            OpView::SignExtend { .. } => true,
            OpView::IsNotZero { .. } => true,
            _ => false,
        }
    }

    /// Whether the request ends the block that the builder stands in.
    pub open spec fn is_terminator(self) -> bool {
        self is Branch || self is BranchIf || self is Return
    }
}

} // verus!
