//! What holds of every script that a program is lowered to.

use crate::compiler::lowering::{
    allocation, declarations, entry_routine, epilogue, increment_cell, input_cell, loop_foot,
    loop_head, loop_head_len, lower_body, lower_instruction, lower_program, output_cell,
    prelude, prelude_context, prelude_len, ContextView,
};
use crate::compiler::script::{OpView, Operand};
use crate::parser::model::{InstructionView, KindView};
use crate::parser::{program_view, MidiInstruction};
use vstd::prelude::*;

verus! {

/// An operand names nothing, or a value that an earlier request yielded.
pub open spec fn value_in_scope(script: Seq<OpView>, operand: Operand, index: int) -> bool {
    operand matches Operand::Value { op } ==> op < index && script[op as int].yields_value()
}

/// A block is named after the request that appended it.
pub open spec fn block_in_scope(script: Seq<OpView>, block: usize, index: int) -> bool {
    block < index && script[block as int] is AppendBlock
}

/// A function is named after the request that declared it.
pub open spec fn function_in_scope(script: Seq<OpView>, function: usize, index: int) -> bool {
    function < index && script[function as int] is AddFunction
}

/// A function is called by a name under which an earlier request declared
/// one.
pub open spec fn declared(script: Seq<OpView>, name: Seq<char>, index: int) -> bool {
    exists|at: int|
        0 <= at < index && at < script.len() && (#[trigger] script[at] matches OpView::AddFunction {
            name: declared_name,
            ..
        } && declared_name == name)
}

/// Every handle that the request at `index` names was yielded by an
/// earlier request of the right kind.
pub open spec fn in_scope(script: Seq<OpView>, index: int) -> bool {
    match script[index] {
        OpView::AddFunction { .. } => true,
        OpView::AppendBlock { function, .. } => function_in_scope(script, function, index),
        OpView::PositionAtEnd { block } => block_in_scope(script, block, index),
        OpView::Call { callee, args, .. } => declared(script, callee, index) && forall|k: int|
            0 <= k < args.len() ==> value_in_scope(script, #[trigger] args[k], index),
        OpView::Alloca { .. } => true,
        OpView::Store { value, pointer } => value_in_scope(script, value, index) && value_in_scope(
            script,
            pointer,
            index,
        ),
        OpView::Load { pointer, .. } => value_in_scope(script, pointer, index),
        OpView::Add { lhs, rhs } => value_in_scope(script, lhs, index) && value_in_scope(
            script,
            rhs,
            index,
        ),
        OpView::ElementPointer { base, index: step } => value_in_scope(script, base, index)
            && value_in_scope(script, step, index),
        OpView::Truncate { value, .. } => value_in_scope(script, value, index),
        OpView::SignExtend { value, .. } => value_in_scope(script, value, index),
        OpView::IsNotZero { value } => value_in_scope(script, value, index),
        OpView::Branch { target } => block_in_scope(script, target, index),
        OpView::BranchIf { condition, then_block, else_block } => value_in_scope(
            script,
            condition,
            index,
        ) && block_in_scope(script, then_block, index) && block_in_scope(
            script,
            else_block,
            index,
        ),
        OpView::Return { value } => value_in_scope(script, value, index),
    }
}

/// The requests from `from` on are in scope.
pub open spec fn scoped_from(script: Seq<OpView>, from: int) -> bool {
    forall|index: int| from <= index < script.len() ==> in_scope(script, index)
}

/// A backend that replays the script is never handed a handle that it has
/// not given out.
pub open spec fn well_scoped(script: Seq<OpView>) -> bool {
    scoped_from(script, 0)
}

/// The handles of a context exist in a script, and so do the primitives
/// that instructions call.
pub open spec fn context_in_scope(script: Seq<OpView>, context: ContextView) -> bool {
    &&& context.cells_ptr < script.len()
    &&& script[context.cells_ptr as int].yields_value()
    &&& context.cell_idx_ptr < script.len()
    &&& script[context.cell_idx_ptr as int].yields_value()
    &&& context.main_fn < script.len()
    &&& script[context.main_fn as int] is AddFunction
    &&& declared(script, "putchar"@, script.len() as int)
    &&& declared(script, "getchar"@, script.len() as int)
    &&& declared(script, "free"@, script.len() as int)
}

/// Whether a request is in scope depends on the requests up to it alone.
pub proof fn lemma_in_scope_extends(script: Seq<OpView>, more: Seq<OpView>, index: int)
    requires
        0 <= index < script.len(),
        in_scope(script, index),
    ensures
        in_scope(script + more, index),
{
    let longer = script + more;
    assert(longer[index] == script[index]);
    assert forall|name: Seq<char>| declared(script, name, index) implies declared(
        longer,
        name,
        index,
    ) by {
        let at = choose|at: int|
            0 <= at < index && at < script.len() && (#[trigger] script[at] matches OpView::AddFunction {
                name: declared_name,
                ..
            } && declared_name == name);
        assert(longer[at] == script[at]);
    }
    assert forall|operand: Operand| value_in_scope(script, operand, index) implies value_in_scope(
        longer,
        operand,
        index,
    ) by {
        if let Operand::Value { op } = operand {
            assert(longer[op as int] == script[op as int]);
        }
    }
    assert forall|block: usize| block_in_scope(script, block, index) implies block_in_scope(
        longer,
        block,
        index,
    ) by {
        assert(longer[block as int] == script[block as int]);
    }
    assert forall|function: usize|
        function_in_scope(script, function, index) implies function_in_scope(
        longer,
        function,
        index,
    ) by {
        assert(longer[function as int] == script[function as int]);
    }
}

/// A script that is in scope stays so when more is appended to it.
pub proof fn lemma_scoped_extends(script: Seq<OpView>, more: Seq<OpView>, from: int)
    requires
        0 <= from,
        scoped_from(script, from),
        scoped_from(script + more, script.len() as int),
    ensures
        scoped_from(script + more, from),
{
    assert forall|index: int| from <= index < (script + more).len() implies in_scope(
        script + more,
        index,
    ) by {
        if index < script.len() {
            lemma_in_scope_extends(script, more, index);
        }
    }
}

/// The handles of a context stay in scope when more is appended.
pub proof fn lemma_context_extends(script: Seq<OpView>, more: Seq<OpView>, context: ContextView)
    requires
        context_in_scope(script, context),
    ensures
        context_in_scope(script + more, context),
{
    let longer = script + more;
    assert(longer[context.cells_ptr as int] == script[context.cells_ptr as int]);
    assert(longer[context.cell_idx_ptr as int] == script[context.cell_idx_ptr as int]);
    assert(longer[context.main_fn as int] == script[context.main_fn as int]);
    assert forall|name: Seq<char>| declared(script, name, script.len() as int) implies declared(
        longer,
        name,
        longer.len() as int,
    ) by {
        let at = choose|at: int|
            0 <= at < script.len() && at < script.len() && (#[trigger] script[at] matches OpView::AddFunction {
                name: declared_name,
                ..
            } && declared_name == name);
        assert(longer[at] == script[at]);
    }
}

/// The requests that a leaf is lowered to are in scope.
pub proof fn lemma_leaf_in_scope(
    script: Seq<OpView>,
    instruction: InstructionView,
    context: ContextView,
)
    requires
        instruction.is_leaf(),
        context_in_scope(script, context),
        script.len() + lower_instruction(instruction, context, script.len()).len() <= usize::MAX,
    ensures
        scoped_from(
            script + lower_instruction(instruction, context, script.len()),
            script.len() as int,
        ),
{
    let at = script.len();
    let base = at as int;
    let lowered = lower_instruction(instruction, context, at);
    let longer = script + lowered;
    assert(longer[context.cells_ptr as int] == script[context.cells_ptr as int]);
    assert(longer[context.cell_idx_ptr as int] == script[context.cell_idx_ptr as int]);
    lemma_context_extends(script, lowered, context);
    assert forall|name: Seq<char>, index: int|
        declared(longer, name, at as int) && at <= index implies declared(longer, name, index) by {
        let found = choose|found: int|
            0 <= found < at && found < longer.len() && (#[trigger] longer[found] matches OpView::AddFunction {
                name: declared_name,
                ..
            } && declared_name == name);
        assert(0 <= found < index);
    }
    lemma_declared_early(script, lowered, "putchar"@);
    lemma_declared_early(script, lowered, "getchar"@);
    assert forall|index: int| at <= index < longer.len() implies in_scope(longer, index) by {
        let offset = index - at;
        assert(longer[index] == lowered[offset]);
        match instruction.kind {
            KindView::IncrementCell { amount } => {
                assert(lowered =~= increment_cell(context, amount, at));
                assert(lowered.len() == 5);
                assert(longer[base + 0] == lowered[0]);
                assert(longer[base + 1] == lowered[1]);
                assert(longer[base + 2] == lowered[2]);
                assert(longer[base + 3] == lowered[3]);
            },
            KindView::MovePointer { amount } => {
                assert(lowered.len() == 3);
                assert(longer[base + 0] == lowered[0]);
                assert(longer[base + 1] == lowered[1]);
            },
            KindView::OutputCell => {
                assert(lowered =~= output_cell(context, at));
                assert(lowered.len() == 5);
                assert(longer[base + 0] == lowered[0]);
                assert(longer[base + 1] == lowered[1]);
                assert(longer[base + 2] == lowered[2]);
                assert(longer[base + 3] == lowered[3]);
            },
            KindView::InputCell => {
                assert(lowered =~= input_cell(context, at));
                assert(lowered.len() == 5);
                assert(longer[base + 0] == lowered[0]);
                assert(longer[base + 1] == lowered[1]);
                assert(longer[base + 2] == lowered[2]);
                assert(longer[base + 3] == lowered[3]);
            },
            KindView::Loop { .. } => {},
        }
    }
}

/// A name that is declared in a script is declared before anything that
/// is appended to the script.
pub proof fn lemma_declared_early(script: Seq<OpView>, more: Seq<OpView>, name: Seq<char>)
    requires
        declared(script, name, script.len() as int),
    ensures
        declared(script + more, name, script.len() as int),
{
    let at = choose|at: int|
        0 <= at < script.len() && at < script.len() && (#[trigger] script[at] matches OpView::AddFunction {
            name: declared_name,
            ..
        } && declared_name == name);
    assert((script + more)[at] == script[at]);
}

/// The requests that open a loop are in scope.
pub proof fn lemma_loop_head_in_scope(script: Seq<OpView>, context: ContextView)
    requires
        context_in_scope(script, context),
        script.len() + loop_head_len() <= usize::MAX,
    ensures
        scoped_from(script + loop_head(context, script.len()), script.len() as int),
        (script + loop_head(context, script.len()))[script.len() as int] is AppendBlock,
        (script + loop_head(context, script.len()))[script.len() as int + 2] is AppendBlock,
{
    let at = script.len();
    let base = at as int;
    let head = loop_head(context, at);
    let longer = script + head;
    assert(head.len() == 11);
    assert(longer[context.cells_ptr as int] == script[context.cells_ptr as int]);
    assert(longer[context.cell_idx_ptr as int] == script[context.cell_idx_ptr as int]);
    assert(longer[context.main_fn as int] == script[context.main_fn as int]);
    assert(longer[base + 0] == head[0]);
    assert(longer[base + 1] == head[1]);
    assert(longer[base + 2] == head[2]);
    assert(longer[base + 5] == head[5]);
    assert(longer[base + 6] == head[6]);
    assert(longer[base + 7] == head[7]);
    assert(longer[base + 8] == head[8]);
    assert forall|index: int| base <= index < longer.len() implies in_scope(longer, index) by {
        assert(longer[index] == head[index - base]);
    }
}

/// The requests that an instruction is lowered to are in scope.
pub proof fn lemma_instruction_in_scope(
    script: Seq<OpView>,
    instruction: InstructionView,
    context: ContextView,
)
    requires
        context_in_scope(script, context),
        script.len() + lower_instruction(instruction, context, script.len()).len() <= usize::MAX,
    ensures
        scoped_from(
            script + lower_instruction(instruction, context, script.len()),
            script.len() as int,
        ),
    decreases instruction,
{
    match instruction.kind {
        KindView::Loop { body } => {
            let at = script.len();
            let base = at as int;
            let head = loop_head(context, at);
            let inner = lower_body(body, context, at + loop_head_len());
            let foot = loop_foot(at);
            let opened = script + head;
            let filled = opened + inner;
            let closed = filled + foot;
            assert(head.len() == 11);
            assert(closed =~= script + lower_instruction(instruction, context, at));
            lemma_loop_head_in_scope(script, context);
            lemma_context_extends(script, head, context);
            lemma_body_in_scope(opened, body, context);
            lemma_scoped_extends(opened, inner, base);
            assert(filled[base] == opened[base]);
            assert(filled[base + 2] == opened[base + 2]);
            assert(closed[base] == filled[base]);
            assert(closed[base + 2] == filled[base + 2]);
            assert forall|index: int| filled.len() <= index < closed.len() implies in_scope(
                closed,
                index,
            ) by {
                assert(closed[index] == foot[index - filled.len()]);
            }
            lemma_scoped_extends(filled, foot, base);
        },
        _ => {
            lemma_leaf_in_scope(script, instruction, context);
        },
    }
}

/// The requests that a run of instructions is lowered to are in scope.
pub proof fn lemma_body_in_scope(
    script: Seq<OpView>,
    body: Seq<InstructionView>,
    context: ContextView,
)
    requires
        context_in_scope(script, context),
        script.len() + lower_body(body, context, script.len()).len() <= usize::MAX,
    ensures
        scoped_from(script + lower_body(body, context, script.len()), script.len() as int),
    decreases body,
{
    let at = script.len();
    if body.len() == 0 {
        assert(script + lower_body(body, context, at) =~= script);
    } else {
        let front = lower_body(body.drop_last(), context, at);
        let last = lower_instruction(body.last(), context, at + front.len());
        let before = script + front;
        assert(before + last =~= script + lower_body(body, context, at));
        lemma_body_in_scope(script, body.drop_last(), context);
        lemma_context_extends(script, front, context);
        lemma_instruction_in_scope(before, body.last(), context);
        lemma_scoped_extends(before, last, at as int);
    }
}

/// The prelude is in scope, and it puts the handles of its context.
pub proof fn lemma_prelude_in_scope(num_cells: u64)
    ensures
        prelude(num_cells).len() == prelude_len(),
        well_scoped(prelude(num_cells)),
        context_in_scope(prelude(num_cells), prelude_context()),
{
    let script = prelude(num_cells);
    let declared_part = declarations();
    let entry = entry_routine();
    let setup = allocation(num_cells);
    assert(script[0] == declared_part[0]);
    assert(script[1] == declared_part[1]);
    assert(script[2] == declared_part[2]);
    assert(script[3] == declared_part[3]);
    assert(script[4] == declared_part[4]);
    assert(script[5] == entry[0]);
    assert(script[6] == entry[1]);
    assert(script[7] == entry[2]);
    assert(script[8] == entry[3]);
    assert(script[9] == setup[0]);
    assert(script[10] == setup[1]);
    assert(script[11] == setup[2]);
    assert(script[12] == setup[3]);
    assert(script[13] == setup[4]);
    assert(script[14] == setup[5]);
    assert(declared(script, "malloc"@, 9));
    assert(declared(script, "llvm.memset.p0i8.i32"@, 10));
    assert(declared(script, "putchar"@, 15));
    assert(declared(script, "getchar"@, 15));
    assert(declared(script, "free"@, 15));
}

/// Every script that a program is lowered to is well scoped: each handle
/// that a request names was yielded by an earlier request of the right
/// kind, and each function that is called was declared before the call.
pub proof fn lemma_lowered_program_well_scoped(program: Seq<InstructionView>, num_cells: u64)
    requires
        lower_program(program, num_cells).len() <= usize::MAX,
    ensures
        well_scoped(lower_program(program, num_cells)),
{
    let context = prelude_context();
    let opening = prelude(num_cells);
    let body = lower_body(program, context, prelude_len());
    let ending = epilogue(context);
    let filled = opening + body;
    let script = filled + ending;
    lemma_prelude_in_scope(num_cells);
    lemma_body_in_scope(opening, program, context);
    lemma_scoped_extends(opening, body, 0);
    lemma_context_extends(opening, body, context);
    assert(script[context.cells_ptr as int] == filled[context.cells_ptr as int]);
    lemma_declared_early(filled, ending, "free"@);
    assert forall|index: int| filled.len() <= index < script.len() implies in_scope(
        script,
        index,
    ) by {
        assert(script[index] == ending[index - filled.len()]);
        let found = choose|found: int|
            0 <= found < filled.len() && found < script.len() && (#[trigger] script[found] matches OpView::AddFunction {
                name: declared_name,
                ..
            } && declared_name == "free"@);
        assert(0 <= found < index);
    }
    lemma_scoped_extends(filled, ending, 0);
}

/// What a program is lowered to depends on its instructions and on the
/// size of the tape alone: programs that are the same tree give, for the
/// same tape, the same script.
pub proof fn lemma_lowering_is_deterministic(
    first: Seq<MidiInstruction>,
    second: Seq<MidiInstruction>,
    num_cells: u64,
)
    requires
        program_view(first) == program_view(second),
    ensures
        lower_program(program_view(first), num_cells) == lower_program(
            program_view(second),
            num_cells,
        ),
{
}

} // verus!
