//! The script that a program is lowered to, as a mathematical function of
//! the program and of the size of its tape.
//!
//! The script opens with a fixed prelude: the declarations of the five C
//! primitives, the entry routine with its `init` and `start` blocks, and
//! the code of `init`, which allocates and clears the tape, sets up the
//! cursor and jumps to `start`. The instructions of the program follow,
//! and a fixed epilogue frees the tape and returns.
//!
//! Two things are left to the generated program and are not checked by it.
//! A cursor that leaves the tape is not caught: the tape has to be as long
//! as the program needs. At the end of input `getchar` yields -1, and
//! `InputCell` stores its low byte, so the cell becomes -1.

use crate::compiler::script::{OpView, Operand, ValueType};
use crate::parser::model::{InstructionView, KindView};
use vstd::prelude::*;

verus! {

/// The handles that the instructions of a program are lowered against.
pub struct ContextView {
    /// The call that allocated the tape.
    pub cells_ptr: usize,
    /// The stack slot that holds the cursor.
    pub cell_idx_ptr: usize,
    /// The entry routine.
    pub main_fn: usize,
}

/// The declarations of the C primitives that the generated program calls.
pub open spec fn declarations() -> Seq<OpView> {
    seq![
        OpView::AddFunction {
            name: "malloc"@,
            params: seq![ValueType::Int32],
            ret: ValueType::Int8Ptr,
        },
        OpView::AddFunction {
            name: "free"@,
            params: seq![ValueType::Int8Ptr],
            ret: ValueType::Void,
        },
        OpView::AddFunction {
            name: "putchar"@,
            params: seq![ValueType::Int32],
            ret: ValueType::Int32,
        },
        OpView::AddFunction { name: "getchar"@, params: seq![], ret: ValueType::Int32 },
        OpView::AddFunction {
            name: "llvm.memset.p0i8.i32"@,
            params: seq![
                ValueType::Int8Ptr,
                ValueType::Int8,
                ValueType::Int32,
                ValueType::Int32,
                ValueType::Int1,
            ],
            ret: ValueType::Void,
        },
    ]
}

/// Where the prelude puts its handles.
pub open spec fn prelude_context() -> ContextView {
    ContextView { cells_ptr: 9, cell_idx_ptr: 11, main_fn: 5 }
}

/// The index of the `init` block.
pub open spec fn init_block() -> usize {
    6
}

/// The index of the `start` block.
pub open spec fn start_block() -> usize {
    7
}

/// The entry routine, its two blocks, and the builder at the end of `init`.
pub open spec fn entry_routine() -> Seq<OpView> {
    seq![
        OpView::AddFunction { name: "main"@, params: seq![], ret: ValueType::Int32 },
        OpView::AppendBlock { function: 5, name: "init"@ },
        OpView::AppendBlock { function: 5, name: "start"@ },
        OpView::PositionAtEnd { block: 6 },
    ]
}

/// The code of `init`: the tape is allocated and cleared, the cursor is
/// set to zero, and control passes to `start`, where the builder then
/// stands.
pub open spec fn allocation(num_cells: u64) -> Seq<OpView> {
    seq![
        OpView::Call {
            callee: "malloc"@,
            args: seq![Operand::Const { ty: ValueType::Int32, value: num_cells }],
            name: "cells"@,
        },
        OpView::Call {
            callee: "llvm.memset.p0i8.i32"@,
            args: seq![
                Operand::Value { op: 9 },
                Operand::Const { ty: ValueType::Int8, value: 0 },
                Operand::Const { ty: ValueType::Int32, value: num_cells },
                Operand::Const { ty: ValueType::Int32, value: 0 },
                Operand::Const { ty: ValueType::Int1, value: 0 },
            ],
            name: ""@,
        },
        OpView::Alloca { ty: ValueType::Int32, name: "cell_idx_ptr"@ },
        OpView::Store {
            value: Operand::Const { ty: ValueType::Int32, value: 0 },
            pointer: Operand::Value { op: 11 },
        },
        OpView::Branch { target: 7 },
        OpView::PositionAtEnd { block: 7 },
    ]
}

/// All that comes before the instructions of the program.
pub open spec fn prelude(num_cells: u64) -> Seq<OpView> {
    declarations() + entry_routine() + allocation(num_cells)
}

/// How many requests the prelude makes.
pub open spec fn prelude_len() -> nat {
    15
}

/// The address of the current cell: the cursor is read and the tape
/// pointer is stepped forward by it. The address is the value of the
/// second request, at index `at + 1`.
pub open spec fn cell_address(context: ContextView, at: nat) -> Seq<OpView> {
    seq![
        OpView::Load {
            ty: ValueType::Int32,
            pointer: Operand::Value { op: context.cell_idx_ptr },
        },
        OpView::ElementPointer {
            base: Operand::Value { op: context.cells_ptr },
            index: Operand::Value { op: at as usize },
        },
    ]
}

/// The bit pattern of an amount in a byte.
pub open spec fn byte_pattern(amount: int) -> u64 {
    (amount % 0x100) as u64
}

/// The bit pattern of an amount in 32 bits.
pub open spec fn word_pattern(amount: int) -> u64 {
    (amount % 0x1_0000_0000) as u64
}

/// `IncrementCell`: the current cell is read, the amount is added to it
/// with 8-bit wraparound, and the sum is written back.
pub open spec fn increment_cell(context: ContextView, amount: int, at: nat) -> Seq<OpView> {
    cell_address(context, at) + seq![
        OpView::Load { ty: ValueType::Int8, pointer: Operand::Value { op: (at + 1) as usize } },
        OpView::Add {
            lhs: Operand::Value { op: (at + 2) as usize },
            rhs: Operand::Const { ty: ValueType::Int8, value: byte_pattern(amount) },
        },
        OpView::Store {
            value: Operand::Value { op: (at + 3) as usize },
            pointer: Operand::Value { op: (at + 1) as usize },
        },
    ]
}

/// `MovePointer`: the cursor is read, the amount is added to it, and the
/// sum is written back. Nothing keeps the cursor on the tape.
pub open spec fn move_pointer(context: ContextView, amount: int, at: nat) -> Seq<OpView> {
    seq![
        OpView::Load {
            ty: ValueType::Int32,
            pointer: Operand::Value { op: context.cell_idx_ptr },
        },
        OpView::Add {
            lhs: Operand::Value { op: at as usize },
            rhs: Operand::Const { ty: ValueType::Int32, value: word_pattern(amount) },
        },
        OpView::Store {
            value: Operand::Value { op: (at + 1) as usize },
            pointer: Operand::Value { op: context.cell_idx_ptr },
        },
    ]
}

/// `OutputCell`: the current cell is read, widened, and handed to
/// `putchar`.
pub open spec fn output_cell(context: ContextView, at: nat) -> Seq<OpView> {
    cell_address(context, at) + seq![
        OpView::Load { ty: ValueType::Int8, pointer: Operand::Value { op: (at + 1) as usize } },
        OpView::SignExtend { value: Operand::Value { op: (at + 2) as usize }, to: ValueType::Int32 },
        OpView::Call {
            callee: "putchar"@,
            args: seq![Operand::Value { op: (at + 3) as usize }],
            name: ""@,
        },
    ]
}

/// `InputCell`: `getchar` is called and the low byte of what it yields is
/// written to the current cell.
pub open spec fn input_cell(context: ContextView, at: nat) -> Seq<OpView> {
    seq![
        OpView::Call { callee: "getchar"@, args: seq![], name: ""@ },
        OpView::Truncate { value: Operand::Value { op: at as usize }, to: ValueType::Int8 },
    ] + cell_address(context, at + 2) + seq![
        OpView::Store {
            value: Operand::Value { op: (at + 1) as usize },
            pointer: Operand::Value { op: (at + 3) as usize },
        },
    ]
}

/// The head of a loop: three new blocks, a jump into the first, the test
/// of the current cell there, and the builder at the start of the second,
/// where the body goes.
pub open spec fn loop_head(context: ContextView, at: nat) -> Seq<OpView> {
    seq![
        OpView::AppendBlock { function: context.main_fn, name: "loop_header"@ },
        OpView::AppendBlock { function: context.main_fn, name: "loop_body"@ },
        OpView::AppendBlock { function: context.main_fn, name: "loop_after"@ },
        OpView::Branch { target: at as usize },
        OpView::PositionAtEnd { block: at as usize },
    ] + cell_address(context, at + 5) + seq![
        OpView::Load { ty: ValueType::Int8, pointer: Operand::Value { op: (at + 6) as usize } },
        OpView::IsNotZero { value: Operand::Value { op: (at + 7) as usize } },
        OpView::BranchIf {
            condition: Operand::Value { op: (at + 8) as usize },
            then_block: (at + 1) as usize,
            else_block: (at + 2) as usize,
        },
        OpView::PositionAtEnd { block: (at + 1) as usize },
    ]
}

/// How many requests the head of a loop makes.
pub open spec fn loop_head_len() -> nat {
    11
}

/// The foot of a loop whose head stands at `at`: a jump back to the test,
/// and the builder at the start of the block after the loop.
pub open spec fn loop_foot(at: nat) -> Seq<OpView> {
    seq![
        OpView::Branch { target: at as usize },
        OpView::PositionAtEnd { block: (at + 2) as usize },
    ]
}

/// The requests that one instruction is lowered to when the script
/// already holds `at` requests. A loop is lowered to real control flow:
/// the cell is tested before every round, the first included.
pub open spec fn lower_instruction(
    instruction: InstructionView,
    context: ContextView,
    at: nat,
) -> Seq<OpView>
    decreases instruction,
{
    match instruction.kind {
        KindView::IncrementCell { amount } => increment_cell(context, amount, at),
        KindView::MovePointer { amount } => move_pointer(context, amount, at),
        KindView::OutputCell => output_cell(context, at),
        KindView::InputCell => input_cell(context, at),
        KindView::Loop { body } => loop_head(context, at) + lower_body(
            body,
            context,
            at + loop_head_len(),
        ) + loop_foot(at),
    }
}

/// The requests that a run of instructions is lowered to, one instruction
/// after the other, when the script already holds `at` requests.
pub open spec fn lower_body(body: Seq<InstructionView>, context: ContextView, at: nat) -> Seq<
    OpView,
>
    decreases body,
{
    if body.len() == 0 {
        Seq::empty()
    } else {
        let front = lower_body(body.drop_last(), context, at);
        front + lower_instruction(body.last(), context, at + front.len())
    }
}

/// The end of the entry routine: the tape is freed and the routine
/// returns zero.
pub open spec fn epilogue(context: ContextView) -> Seq<OpView> {
    seq![
        OpView::Call {
            callee: "free"@,
            args: seq![Operand::Value { op: context.cells_ptr }],
            name: "free_cells"@,
        },
        OpView::Return { value: Operand::Const { ty: ValueType::Int32, value: 0 } },
    ]
}

/// The whole script of a program on a tape of `num_cells` cells.
pub open spec fn lower_program(program: Seq<InstructionView>, num_cells: u64) -> Seq<OpView> {
    prelude(num_cells) + lower_body(program, prelude_context(), prelude_len()) + epilogue(
        prelude_context(),
    )
}

} // verus!
