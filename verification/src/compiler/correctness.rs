//! The script of a program does what the program does: a run of the tape
//! machine that ends is matched, step for step, by the run of the routine
//! that the script builds.

use crate::cell::{lemma_wrap_i8_add, lemma_wrap_i8_periodic, wrap_i8};
use crate::compiler::laws::{in_scope, lemma_lowered_program_well_scoped, well_scoped};
use crate::compiler::lowering::{
    allocation, byte_pattern, cell_address, declarations, entry_routine, epilogue,
    increment_cell, input_cell, loop_foot, loop_head, loop_head_len, lower_body,
    lower_instruction, lower_program, move_pointer, output_cell, prelude, prelude_context,
    prelude_len, word_pattern, ContextView,
};
use crate::compiler::script::{OpView, ValueType};
use crate::compiler::semantics::{
    find_entry, first_block, lemma_steps_add, wrap_i32, Progress, TargetState, Value,
};
use crate::machine::{
    increment_by, lemma_increment_256_times, repeated, MachineView, Outcome,
};
use crate::parser::model::{InstructionView, KindView};
use vstd::prelude::*;

verus! {

/// The requests `ops` stand in the script from index `at` on.
pub open spec fn stands_at(script: Seq<OpView>, ops: Seq<OpView>, at: nat) -> bool {
    &&& at + ops.len() <= script.len()
    &&& forall|k: int| 0 <= k < ops.len() ==> script[at + k] == #[trigger] ops[k]
}

/// The routine is where the machine is: same tape, same cursor, same
/// input and output, and the handles of the context are the tape and the
/// slot of the cursor. The tape is one that the routine can hold: its
/// cells are signed bytes and a 32-bit cursor reaches all of them.
pub open spec fn related(machine: MachineView, state: TargetState, context: ContextView) -> bool {
    &&& state.tape == machine.tape
    &&& state.live
    &&& state.slot == wrap_i32(machine.cursor)
    &&& state.input == machine.input
    &&& state.output == machine.output
    &&& state.values.contains_key(context.cells_ptr)
    &&& state.values[context.cells_ptr] == (Value::TapePointer { offset: 0 })
    &&& state.values.contains_key(context.cell_idx_ptr)
    &&& state.values[context.cell_idx_ptr] == Value::SlotPointer
    &&& machine.tape.len() <= i32::MAX
    &&& forall|i: int| 0 <= i < machine.tape.len() ==> -128 <= #[trigger] machine.tape[i] <= 127
}

/// The script can take lowered code at index `at`: it is well scoped,
/// its indices fit the machine, and the handles of the context are
/// yielded before `at`.
pub open spec fn hosts(script: Seq<OpView>, context: ContextView, at: nat) -> bool {
    &&& script.len() <= usize::MAX
    &&& well_scoped(script)
    &&& context.cells_ptr < at
    &&& context.cell_idx_ptr < at
}

/// Wrapping to 32 bits depends only on the residue modulo 2^32, and it
/// leaves a value that already fits as it is.
pub proof fn lemma_wrap_i32(x: int, k: int)
    ensures
        wrap_i32(x + 0x1_0000_0000 * k) == wrap_i32(x),
        -0x8000_0000 <= wrap_i32(x) < 0x8000_0000,
        -0x8000_0000 <= x < 0x8000_0000 ==> wrap_i32(x) == x,
{
    vstd::arithmetic::div_mod::lemma_mod_multiples_vanish(k, x + 0x8000_0000, 0x1_0000_0000);
}

/// Wrapping the operands of a 32-bit addition before it changes nothing.
pub proof fn lemma_wrap_i32_add(x: int, y: int)
    ensures
        wrap_i32(wrap_i32(x) + wrap_i32(y)) == wrap_i32(x + y),
        wrap_i32(wrap_i32(x)) == wrap_i32(x),
        wrap_i32(y % 0x1_0000_0000) == wrap_i32(y),
{
    let kx = (x + 0x8000_0000) / 0x1_0000_0000;
    let ky = (y + 0x8000_0000) / 0x1_0000_0000;
    let kz = y / 0x1_0000_0000;
    assert(wrap_i32(x) == x - 0x1_0000_0000 * kx);
    assert(wrap_i32(y) == y - 0x1_0000_0000 * ky);
    assert(y % 0x1_0000_0000 == y - 0x1_0000_0000 * kz);
    lemma_wrap_i32(x + y, -kx - ky);
    lemma_wrap_i32(x, -kx);
    lemma_wrap_i32(y, -kz);
    assert(wrap_i32(x) + wrap_i32(y) == x + y + 0x1_0000_0000 * (-kx - ky));
    assert(wrap_i32(x) == x + 0x1_0000_0000 * (-kx));
    assert(y % 0x1_0000_0000 == y + 0x1_0000_0000 * (-kz));
}

/// The bit pattern of an amount in a byte stands for the amount, wrapped.
pub proof fn lemma_byte_pattern(amount: int)
    ensures
        wrap_i8(byte_pattern(amount) as int) == wrap_i8(amount),
        0 <= amount % 0x100 < 0x100,
{
    let k = amount / 0x100;
    assert(amount % 0x100 == amount - 0x100 * k);
    lemma_wrap_i8_periodic(amount, -k);
    assert(amount % 0x100 == amount + 256 * (-k));
}

/// The state of the routine after it worked out the address of the
/// current cell.
pub proof fn lemma_cell_address(
    script: Seq<OpView>,
    context: ContextView,
    at: nat,
    machine: MachineView,
    state: TargetState,
) -> (end: TargetState)
    requires
        stands_at(script, cell_address(context, at), at),
        script.len() <= usize::MAX,
        context.cells_ptr < at,
        context.cell_idx_ptr < at,
        state.pc == at,
        related(machine, state, context),
        machine.on_tape(),
    ensures
        state.steps(script, 2) == Progress::Running(end),
        end.pc == at + 2,
        related(machine, end, context),
        end.values.contains_key((at + 1) as usize),
        end.values[(at + 1) as usize] == (Value::TapePointer { offset: machine.cursor }),
        forall|key: usize| key < at && state.values.contains_key(key) ==> end.values.contains_key(key)
            && end.values[key] == state.values[key],
{
    let ops = cell_address(context, at);
    let base = at as int;
    assert(script[base + 0] == ops[0]);
    assert(script[base + 1] == ops[1]);
    lemma_wrap_i32(machine.cursor, 0);
    lemma_wrap_i32_add(machine.cursor, 0);
    reveal_with_fuel(TargetState::steps, 3);
    let one = state.step(script)->Running_0;
    let two = one.step(script)->Running_0;
    assert(one.values[at as usize] == (Value::Int { ty: ValueType::Int32, value: machine.cursor }));
    two
}

/// The names of the C primitives are five different names.
pub proof fn lemma_names_differ()
    ensures
        "free"@ != "malloc"@,
        "free"@ != "llvm.memset.p0i8.i32"@,
        "putchar"@ != "malloc"@,
        "putchar"@ != "llvm.memset.p0i8.i32"@,
        "putchar"@ != "free"@,
        "getchar"@ != "malloc"@,
        "getchar"@ != "llvm.memset.p0i8.i32"@,
        "getchar"@ != "free"@,
        "getchar"@ != "putchar"@,
        "llvm.memset.p0i8.i32"@ != "malloc"@,
{
    reveal_strlit("malloc");
    reveal_strlit("free");
    reveal_strlit("putchar");
    reveal_strlit("getchar");
    reveal_strlit("llvm.memset.p0i8.i32");
    assert("malloc"@.len() == 6);
    assert("free"@.len() == 4);
    assert("putchar"@.len() == 7);
    assert("getchar"@.len() == 7);
    assert("llvm.memset.p0i8.i32"@.len() == 20);
    assert("getchar"@[0] == 'g');
    assert("putchar"@[0] == 'p');
}

/// `IncrementCell`, run by the routine.
pub proof fn lemma_increment_simulates(
    script: Seq<OpView>,
    context: ContextView,
    amount: int,
    at: nat,
    machine: MachineView,
    state: TargetState,
) -> (end: TargetState)
    requires
        stands_at(script, increment_cell(context, amount, at), at),
        script.len() <= usize::MAX,
        context.cells_ptr < at,
        context.cell_idx_ptr < at,
        state.pc == at,
        related(machine, state, context),
        machine.on_tape(),
    ensures
        state.steps(script, 5) == Progress::Running(end),
        end.pc == at + 5,
        related(machine.store(wrap_i8(machine.current() + amount)), end, context),
{
    let ops = increment_cell(context, amount, at);
    let base = at as int;
    assert(ops.len() == 5);
    assert(script[base + 0] == ops[0]);
    assert(script[base + 1] == ops[1]);
    assert(script[base + 2] == ops[2]);
    assert(script[base + 3] == ops[3]);
    assert(script[base + 4] == ops[4]);
    assert(stands_at(script, cell_address(context, at), at)) by {
        let address = cell_address(context, at);
        assert forall|k: int| 0 <= k < address.len() implies script[at + k] == #[trigger] address[k] by {
            assert(address[k] == ops[k]);
        }
    }
    let two = lemma_cell_address(script, context, at, machine, state);
    lemma_steps_add(state, script, 2, 3);
    lemma_byte_pattern(amount);
    lemma_wrap_i8_periodic(machine.current(), 0);
    lemma_wrap_i8_add(machine.current(), byte_pattern(amount) as int);
    lemma_wrap_i8_add(machine.current(), wrap_i8(byte_pattern(amount) as int));
    lemma_wrap_i8_add(machine.current(), amount);
    reveal_with_fuel(TargetState::steps, 4);
    let three = two.step(script)->Running_0;
    assert(three.values[(at + 2) as usize] == (Value::Int {
        ty: ValueType::Int8,
        value: wrap_i8(machine.current()),
    }));
    let four = three.step(script)->Running_0;
    assert(four.values[(at + 3) as usize] == (Value::Int {
        ty: ValueType::Int8,
        value: wrap_i8(machine.current() + amount),
    }));
    let five = four.step(script)->Running_0;
    five
}

/// `MovePointer`, run by the routine.
pub proof fn lemma_move_simulates(
    script: Seq<OpView>,
    context: ContextView,
    amount: int,
    at: nat,
    machine: MachineView,
    state: TargetState,
) -> (end: TargetState)
    requires
        stands_at(script, move_pointer(context, amount, at), at),
        script.len() <= usize::MAX,
        context.cells_ptr < at,
        context.cell_idx_ptr < at,
        state.pc == at,
        related(machine, state, context),
    ensures
        state.steps(script, 3) == Progress::Running(end),
        end.pc == at + 3,
        related(MachineView { cursor: machine.cursor + amount, ..machine }, end, context),
{
    let ops = move_pointer(context, amount, at);
    let base = at as int;
    assert(script[base + 0] == ops[0]);
    assert(script[base + 1] == ops[1]);
    assert(script[base + 2] == ops[2]);
    lemma_wrap_i32_add(machine.cursor, amount);
    lemma_wrap_i32_add(wrap_i32(machine.cursor), word_pattern(amount) as int);
    lemma_wrap_i32_add(machine.cursor, wrap_i32(amount));
    assert(0 <= amount % 0x1_0000_0000 < 0x1_0000_0000);
    reveal_with_fuel(TargetState::steps, 4);
    let one = state.step(script)->Running_0;
    assert(one.values[at as usize] == (Value::Int {
        ty: ValueType::Int32,
        value: wrap_i32(machine.cursor),
    }));
    let two = one.step(script)->Running_0;
    assert(two.values[(at + 1) as usize] == (Value::Int {
        ty: ValueType::Int32,
        value: wrap_i32(machine.cursor + amount),
    }));
    let three = two.step(script)->Running_0;
    three
}

/// `OutputCell`, run by the routine.
pub proof fn lemma_output_simulates(
    script: Seq<OpView>,
    context: ContextView,
    at: nat,
    machine: MachineView,
    state: TargetState,
) -> (end: TargetState)
    requires
        stands_at(script, output_cell(context, at), at),
        script.len() <= usize::MAX,
        context.cells_ptr < at,
        context.cell_idx_ptr < at,
        state.pc == at,
        related(machine, state, context),
        machine.on_tape(),
    ensures
        state.steps(script, 5) == Progress::Running(end),
        end.pc == at + 5,
        related(
            MachineView {
                output: machine.output.push((machine.current() % 256) as u8),
                ..machine
            },
            end,
            context,
        ),
{
    let ops = output_cell(context, at);
    let base = at as int;
    assert(ops.len() == 5);
    assert(script[base + 0] == ops[0]);
    assert(script[base + 1] == ops[1]);
    assert(script[base + 2] == ops[2]);
    assert(script[base + 3] == ops[3]);
    assert(script[base + 4] == ops[4]);
    assert(stands_at(script, cell_address(context, at), at)) by {
        let address = cell_address(context, at);
        assert forall|k: int| 0 <= k < address.len() implies script[at + k] == #[trigger] address[k] by {
            assert(address[k] == ops[k]);
        }
    }
    let two = lemma_cell_address(script, context, at, machine, state);
    lemma_steps_add(state, script, 2, 3);
    lemma_names_differ();
    let cell = machine.current();
    assert(wrap_i8(cell) % 256 == cell % 256) by {
        let k = (cell + 128) / 256;
        assert(wrap_i8(cell) == cell - 256 * k);
        vstd::arithmetic::div_mod::lemma_mod_multiples_vanish(-k, cell, 256);
        assert(cell - 256 * k == 256 * (-k) + cell);
    }
    reveal_with_fuel(TargetState::steps, 4);
    let three = two.step(script)->Running_0;
    assert(three.values[(at + 2) as usize] == (Value::Int {
        ty: ValueType::Int8,
        value: wrap_i8(cell),
    }));
    let four = three.step(script)->Running_0;
    assert(four.values[(at + 3) as usize] == (Value::Int {
        ty: ValueType::Int32,
        value: wrap_i8(cell),
    }));
    let five = four.step(script)->Running_0;
    five
}

/// `InputCell`, run by the routine.
pub proof fn lemma_input_simulates(
    script: Seq<OpView>,
    context: ContextView,
    at: nat,
    machine: MachineView,
    state: TargetState,
) -> (end: TargetState)
    requires
        stands_at(script, input_cell(context, at), at),
        script.len() <= usize::MAX,
        context.cells_ptr < at,
        context.cell_idx_ptr < at,
        state.pc == at,
        related(machine, state, context),
        machine.on_tape(),
    ensures
        state.steps(script, 5) == Progress::Running(end),
        end.pc == at + 5,
        machine.leaf(KindView::InputCell) matches Outcome::Done(after) && related(
            after,
            end,
            context,
        ),
{
    let ops = input_cell(context, at);
    let base = at as int;
    assert(ops.len() == 5);
    assert(script[base + 0] == ops[0]);
    assert(script[base + 1] == ops[1]);
    assert(script[base + 2] == ops[2]);
    assert(script[base + 3] == ops[3]);
    assert(script[base + 4] == ops[4]);
    lemma_names_differ();
    lemma_wrap_i8_periodic(-1, 0);
    reveal_with_fuel(TargetState::steps, 3);
    let one = state.step(script)->Running_0;
    let two = one.step(script)->Running_0;
    let read = if machine.input.len() == 0 {
        -1int
    } else {
        machine.input[0] as int
    };
    assert(two.values[(at + 1) as usize] == (Value::Int {
        ty: ValueType::Int8,
        value: wrap_i8(read),
    }));
    let between = MachineView { input: two.input, ..machine };
    assert(related(between, two, context));
    assert(stands_at(script, cell_address(context, at + 2), at + 2)) by {
        let address = cell_address(context, at + 2);
        assert forall|k: int| 0 <= k < address.len() implies script[at + 2 + k]
            == #[trigger] address[k] by {
            assert(address[k] == ops[k + 2]);
        }
    }
    let four = lemma_cell_address(script, context, at + 2, between, two);
    assert(four.values.contains_key((at + 1) as usize));
    assert(four.values[(at + 1) as usize] == two.values[(at + 1) as usize]);
    let five = four.step(script)->Running_0;
    lemma_steps_add(state, script, 2, 3);
    lemma_steps_add(two, script, 2, 1);
    assert(state.steps(script, 5) == Progress::Running(five));
    five
}

/// Where a run of requests stands, each of its two parts stands.
pub proof fn lemma_stands_at_parts(
    script: Seq<OpView>,
    first: Seq<OpView>,
    second: Seq<OpView>,
    at: nat,
)
    requires
        stands_at(script, first + second, at),
    ensures
        stands_at(script, first, at),
        stands_at(script, second, at + first.len()),
{
    let joined = first + second;
    assert forall|k: int| 0 <= k < first.len() implies script[at + k] == #[trigger] first[k] by {
        assert(joined[k] == first[k]);
    }
    assert forall|k: int| 0 <= k < second.len() implies script[at + first.len() + k]
        == #[trigger] second[k] by {
        assert(joined[first.len() + k] == second[k]);
    }
}

/// The first request that moves the builder into a block is the one
/// before which there is no other.
pub proof fn lemma_find_entry(script: Seq<OpView>, block: usize, entry: int, from: int)
    requires
        0 <= from <= entry < script.len(),
        script[entry] == (OpView::PositionAtEnd { block }),
        forall|i: int| from <= i < entry ==> script[i] != (OpView::PositionAtEnd { block }),
    ensures
        find_entry(script, block, from) == entry,
    decreases entry - from,
{
    if from < entry {
        lemma_find_entry(script, block, entry, from + 1);
    }
}

/// Every block that the requests move the builder into has an index of
/// `at` or above.
pub open spec fn positions_from(ops: Seq<OpView>, at: nat) -> bool {
    forall|k: int|
        0 <= k < ops.len() && (#[trigger] ops[k]) is PositionAtEnd ==> ops[k]->block >= at
}

/// The requests of an instruction move the builder only into blocks that
/// these requests append.
pub proof fn lemma_instruction_positions(
    instruction: InstructionView,
    context: ContextView,
    at: nat,
)
    requires
        at + lower_instruction(instruction, context, at).len() <= usize::MAX,
    ensures
        positions_from(lower_instruction(instruction, context, at), at),
    decreases instruction,
{
    let ops = lower_instruction(instruction, context, at);
    match instruction.kind {
        KindView::Loop { body } => {
            let head = loop_head(context, at);
            let inner = lower_body(body, context, at + loop_head_len());
            let foot = loop_foot(at);
            assert(head.len() == 11);
            lemma_body_positions(body, context, at + loop_head_len());
            assert forall|k: int| 0 <= k < ops.len() && (#[trigger] ops[k]) is PositionAtEnd implies ops[k]->block
                >= at by {
                if k < 11 {
                    assert(ops[k] == head[k]);
                } else if k < 11 + inner.len() {
                    assert(ops[k] == inner[k - 11]);
                } else {
                    assert(ops[k] == foot[k - 11 - inner.len()]);
                }
            }
        },
        KindView::IncrementCell { amount } => {
            assert(ops =~= increment_cell(context, amount, at));
        },
        KindView::MovePointer { amount } => {
            assert(ops =~= move_pointer(context, amount, at));
        },
        KindView::OutputCell => {
            assert(ops =~= output_cell(context, at));
        },
        KindView::InputCell => {
            assert(ops =~= input_cell(context, at));
        },
    }
}

/// The requests of a run of instructions move the builder only into
/// blocks that these requests append.
pub proof fn lemma_body_positions(body: Seq<InstructionView>, context: ContextView, at: nat)
    requires
        at + lower_body(body, context, at).len() <= usize::MAX,
    ensures
        positions_from(lower_body(body, context, at), at),
    decreases body,
{
    if body.len() > 0 {
        let front = lower_body(body.drop_last(), context, at);
        let last = lower_instruction(body.last(), context, at + front.len());
        let ops = lower_body(body, context, at);
        lemma_body_positions(body.drop_last(), context, at);
        lemma_instruction_positions(body.last(), context, at + front.len());
        assert forall|k: int| 0 <= k < ops.len() && (#[trigger] ops[k]) is PositionAtEnd implies ops[k]->block
            >= at by {
            if k < front.len() {
                assert(ops[k] == front[k]);
            } else {
                assert(ops[k] == last[k - front.len()]);
            }
        }
    }
}

/// Where the three blocks of a loop begin: the block that tests the cell
/// behind the jump into it, the block of the body behind the test, and
/// the block after the loop behind the jump back.
pub proof fn lemma_loop_entries(
    script: Seq<OpView>,
    body: Seq<InstructionView>,
    context: ContextView,
    at: nat,
)
    requires
        script.len() <= usize::MAX,
        well_scoped(script),
        stands_at(
            script,
            loop_head(context, at) + lower_body(body, context, at + loop_head_len())
                + loop_foot(at),
            at,
        ),
    ensures
        find_entry(script, at as usize, 0) == at + 4,
        find_entry(script, (at + 1) as usize, 0) == at + 10,
        find_entry(script, (at + 2) as usize, 0) == at + 12 + lower_body(
            body,
            context,
            at + loop_head_len(),
        ).len(),
{
    let head = loop_head(context, at);
    let inner = lower_body(body, context, at + loop_head_len());
    let foot = loop_foot(at);
    let ops = head + inner + foot;
    let base = at as int;
    let after = base + 12 + inner.len();
    assert(head.len() == 11);
    assert(foot.len() == 2);
    lemma_body_positions(body, context, at + loop_head_len());
    assert forall|i: int| 0 <= i < after implies script[i] != (OpView::PositionAtEnd {
        block: (at + 2) as usize,
    }) && (i < base + 10 ==> script[i] != (OpView::PositionAtEnd { block: (at + 1) as usize }))
        && (i < base + 4 ==> script[i] != (OpView::PositionAtEnd { block: at as usize })) by {
        if i < base {
            assert(in_scope(script, i));
        } else {
            let k = i - base;
            assert(script[base + k] == ops[k]);
            if k < 11 {
                assert(ops[k] == head[k]);
            } else if k < 11 + inner.len() {
                assert(ops[k] == inner[k - 11]);
            } else {
                assert(ops[k] == foot[k - 11 - inner.len()]);
            }
        }
    }
    assert(script[base + 4] == ops[4]);
    assert(ops[4] == head[4]);
    assert(script[base + 10] == ops[10]);
    assert(ops[10] == head[10]);
    let last = 12 + inner.len() as int;
    assert(script[base + last] == ops[last]);
    assert(ops[last] == foot[1]);
    lemma_find_entry(script, at as usize, base + 4, 0);
    lemma_find_entry(script, (at + 1) as usize, base + 10, 0);
    lemma_find_entry(script, (at + 2) as usize, after, 0);
}

/// An instruction that the machine runs to its end, the routine runs to
/// the end of the requests of the instruction, and the two end up in the
/// same place.
pub proof fn lemma_instruction_simulates(
    script: Seq<OpView>,
    instruction: InstructionView,
    context: ContextView,
    at: nat,
    machine: MachineView,
    state: TargetState,
    fuel: nat,
) -> (end: (nat, TargetState))
    requires
        hosts(script, context, at),
        stands_at(script, lower_instruction(instruction, context, at), at),
        state.pc == at,
        related(machine, state, context),
        machine.instruction(instruction, fuel) is Done,
    ensures
        state.steps(script, end.0) == Progress::Running(end.1),
        end.1.pc == at + lower_instruction(instruction, context, at).len(),
        related(machine.instruction(instruction, fuel)->Done_0, end.1, context),
    decreases fuel, instruction, 0nat,
{
    match instruction.kind {
        KindView::Loop { body } => {
            let head = loop_head(context, at);
            let inner = lower_body(body, context, at + loop_head_len());
            let foot = loop_foot(at);
            let base = at as int;
            assert(head.len() == 11);
            assert(lower_instruction(instruction, context, at) == head + inner + foot);
            lemma_stands_at_parts(script, head + inner, foot, at);
            lemma_stands_at_parts(script, head, inner, at);
            assert(script[base + 0] == head[0]);
            assert(script[base + 1] == head[1]);
            assert(script[base + 2] == head[2]);
            assert(script[base + 3] == head[3]);
            lemma_loop_entries(script, body, context, at);
            reveal_with_fuel(TargetState::steps, 5);
            let entered = TargetState { pc: base + 5, ..state };
            assert(state.steps(script, 4) == Progress::Running(entered));
            let (count, end) = lemma_rounds_simulate(
                script,
                body,
                context,
                at,
                machine,
                entered,
                fuel,
            );
            lemma_steps_add(state, script, 4, count);
            (4 + count, end)
        },
        KindView::IncrementCell { amount } => {
            (5, lemma_increment_simulates(script, context, amount, at, machine, state))
        },
        KindView::MovePointer { amount } => {
            (3, lemma_move_simulates(script, context, amount, at, machine, state))
        },
        KindView::OutputCell => {
            (5, lemma_output_simulates(script, context, at, machine, state))
        },
        KindView::InputCell => {
            (5, lemma_input_simulates(script, context, at, machine, state))
        },
    }
}

/// The test of a loop: the routine reads the current cell and goes on in
/// the block of the body if the cell is not zero, and in the block after
/// the loop if it is.
pub proof fn lemma_loop_test(
    script: Seq<OpView>,
    body: Seq<InstructionView>,
    context: ContextView,
    at: nat,
    machine: MachineView,
    state: TargetState,
) -> (end: TargetState)
    requires
        hosts(script, context, at),
        stands_at(
            script,
            loop_head(context, at) + lower_body(body, context, at + loop_head_len())
                + loop_foot(at),
            at,
        ),
        state.pc == at + 5,
        related(machine, state, context),
        machine.on_tape(),
    ensures
        state.steps(script, 5) == Progress::Running(end),
        related(machine, end, context),
        end.pc == if machine.current() != 0 {
            at + 11
        } else {
            at + 13 + lower_body(body, context, at + loop_head_len()).len()
        },
{
    let head = loop_head(context, at);
    let inner = lower_body(body, context, at + loop_head_len());
    let foot = loop_foot(at);
    let base = at as int;
    assert(head.len() == 11);
    lemma_stands_at_parts(script, head + inner, foot, at);
    lemma_stands_at_parts(script, head, inner, at);
    assert(script[base + 7] == head[7]);
    assert(script[base + 8] == head[8]);
    assert(script[base + 9] == head[9]);
    assert(stands_at(script, cell_address(context, at + 5), at + 5)) by {
        let address = cell_address(context, at + 5);
        assert forall|k: int| 0 <= k < address.len() implies script[at + 5 + k]
            == #[trigger] address[k] by {
            assert(address[k] == head[k + 5]);
        }
    }
    lemma_loop_entries(script, body, context, at);
    let two = lemma_cell_address(script, context, at + 5, machine, state);
    crate::cell::lemma_wrap_i8_in_range(machine.current());
    let three = two.step(script)->Running_0;
    assert(three == TargetState {
        pc: base + 8,
        values: two.values.insert(
            (at + 7) as usize,
            Value::Int { ty: ValueType::Int8, value: machine.current() },
        ),
        ..two
    });
    let four = three.step(script)->Running_0;
    assert(four == TargetState {
        pc: base + 9,
        values: three.values.insert(
            (at + 8) as usize,
            Value::Int {
                ty: ValueType::Int1,
                value: if machine.current() != 0 {
                    1int
                } else {
                    0int
                },
            },
        ),
        ..three
    });
    let tested = four.step(script)->Running_0;
    assert(tested == TargetState {
        pc: if machine.current() != 0 {
            base + 11
        } else {
            base + 13 + inner.len()
        },
        ..four
    });
    assert(two.steps(script, 3) == Progress::Running(tested)) by {
        reveal_with_fuel(TargetState::steps, 4);
    }
    lemma_steps_add(state, script, 2, 3);
    tested
}

/// The foot of a loop: the routine jumps back to the test.
pub proof fn lemma_loop_back(
    script: Seq<OpView>,
    body: Seq<InstructionView>,
    context: ContextView,
    at: nat,
    state: TargetState,
) -> (end: TargetState)
    requires
        hosts(script, context, at),
        stands_at(
            script,
            loop_head(context, at) + lower_body(body, context, at + loop_head_len())
                + loop_foot(at),
            at,
        ),
        state.pc == at + 11 + lower_body(body, context, at + loop_head_len()).len(),
    ensures
        state.steps(script, 1) == Progress::Running(end),
        end == (TargetState { pc: at as int + 5, ..state }),
{
    let head = loop_head(context, at);
    let inner = lower_body(body, context, at + loop_head_len());
    let foot = loop_foot(at);
    assert(head.len() == 11);
    lemma_stands_at_parts(script, head + inner, foot, at);
    assert(script[at as int + 11 + inner.len() + 0] == foot[0]);
    lemma_loop_entries(script, body, context, at);
    reveal_with_fuel(TargetState::steps, 2);
    TargetState { pc: at as int + 5, ..state }
}

/// The rounds of a loop that the machine runs to their end, the routine
/// runs from the test of the cell to the block after the loop.
pub proof fn lemma_rounds_simulate(
    script: Seq<OpView>,
    body: Seq<InstructionView>,
    context: ContextView,
    at: nat,
    machine: MachineView,
    state: TargetState,
    fuel: nat,
) -> (end: (nat, TargetState))
    requires
        hosts(script, context, at),
        stands_at(
            script,
            loop_head(context, at) + lower_body(body, context, at + loop_head_len())
                + loop_foot(at),
            at,
        ),
        state.pc == at + 5,
        related(machine, state, context),
        machine.rounds(body, fuel) is Done,
    ensures
        state.steps(script, end.0) == Progress::Running(end.1),
        end.1.pc == at + 13 + lower_body(body, context, at + loop_head_len()).len(),
        related(machine.rounds(body, fuel)->Done_0, end.1, context),
    decreases fuel, body, 2nat,
{
    let head = loop_head(context, at);
    let inner = lower_body(body, context, at + loop_head_len());
    let foot = loop_foot(at);
    let tested = lemma_loop_test(script, body, context, at, machine, state);
    if machine.current() == 0 {
        (5, tested)
    } else {
        assert(head.len() == 11);
        lemma_stands_at_parts(script, head + inner, foot, at);
        lemma_stands_at_parts(script, head, inner, at);
        let (inside, looped) = lemma_body_simulates(
            script,
            body,
            context,
            at + loop_head_len(),
            machine,
            tested,
            (fuel - 1) as nat,
        );
        let after = machine.run(body, (fuel - 1) as nat)->Done_0;
        let back = lemma_loop_back(script, body, context, at, looped);
        let (rest, end) = lemma_rounds_simulate(
            script,
            body,
            context,
            at,
            after,
            back,
            (fuel - 1) as nat,
        );
        lemma_steps_add(state, script, 5, inside);
        lemma_steps_add(state, script, 5 + inside, 1);
        lemma_steps_add(state, script, 5 + inside + 1, rest);
        (5 + inside + 1 + rest, end)
    }
}

/// A run of instructions that the machine runs to its end, the routine
/// runs to the end of the requests of these instructions, and the two end
/// up in the same place.
pub proof fn lemma_body_simulates(
    script: Seq<OpView>,
    body: Seq<InstructionView>,
    context: ContextView,
    at: nat,
    machine: MachineView,
    state: TargetState,
    fuel: nat,
) -> (end: (nat, TargetState))
    requires
        hosts(script, context, at),
        stands_at(script, lower_body(body, context, at), at),
        state.pc == at,
        related(machine, state, context),
        machine.run(body, fuel) is Done,
    ensures
        state.steps(script, end.0) == Progress::Running(end.1),
        end.1.pc == at + lower_body(body, context, at).len(),
        related(machine.run(body, fuel)->Done_0, end.1, context),
    decreases fuel, body, 1nat,
{
    if body.len() == 0 {
        (0, state)
    } else {
        let front = lower_body(body.drop_last(), context, at);
        let last = lower_instruction(body.last(), context, at + front.len());
        lemma_stands_at_parts(script, front, last, at);
        let (first, between) = lemma_body_simulates(
            script,
            body.drop_last(),
            context,
            at,
            machine,
            state,
            fuel,
        );
        let before = machine.run(body.drop_last(), fuel)->Done_0;
        let (second, end) = lemma_instruction_simulates(
            script,
            body.last(),
            context,
            at + front.len(),
            before,
            between,
            fuel,
        );
        lemma_steps_add(state, script, first, second);
        (first + second, end)
    }
}

/// The first request that appends a block is the one before which there
/// is no other.
pub proof fn lemma_first_block(script: Seq<OpView>, block: int, from: int)
    requires
        0 <= from <= block < script.len(),
        script[block] is AppendBlock,
        forall|i: int| from <= i < block ==> !(script[i] is AppendBlock),
    ensures
        first_block(script, from) == block,
    decreases block - from,
{
    if from < block {
        lemma_first_block(script, block, from + 1);
    }
}

/// The prelude, run by the routine: from its first instruction the
/// routine reaches the block that takes the program, with a tape of zeros
/// and the cursor on its first cell.
pub proof fn lemma_prelude_simulates(script: Seq<OpView>, num_cells: u64, input: Seq<u8>) -> (end:
    TargetState)
    requires
        stands_at(script, prelude(num_cells), 0),
        script.len() <= usize::MAX,
        well_scoped(script),
        num_cells <= i32::MAX,
    ensures
        TargetState::boot(script, input).steps(script, 5) == Progress::Running(end),
        end.pc == prelude_len(),
        related(MachineView::fresh(num_cells as nat, input), end, prelude_context()),
{
    let opening = prelude(num_cells);
    let declared = declarations();
    let entry = entry_routine();
    let setup = allocation(num_cells);
    assert(opening.len() == 15);
    assert(opening[0] == declared[0]);
    assert(opening[1] == declared[1]);
    assert(opening[2] == declared[2]);
    assert(opening[3] == declared[3]);
    assert(opening[4] == declared[4]);
    assert(opening[5] == entry[0]);
    assert(opening[6] == entry[1]);
    assert(opening[7] == entry[2]);
    assert(opening[8] == entry[3]);
    assert(opening[9] == setup[0]);
    assert(opening[10] == setup[1]);
    assert(opening[11] == setup[2]);
    assert(opening[12] == setup[3]);
    assert(opening[13] == setup[4]);
    assert(opening[14] == setup[5]);
    assert forall|i: int| 0 <= i < 15 implies script[i] == opening[i] by {
        assert(script[0 + i] == opening[i]);
    }
    lemma_first_block(script, 6, 0);
    lemma_find_entry(script, 6usize, 8, 0);
    lemma_find_entry(script, 7usize, 14, 0);
    lemma_names_differ();
    lemma_wrap_i32(num_cells as int, 0);
    lemma_wrap_i32(0, 0);
    crate::cell::lemma_wrap_i8_in_range(0);
    let boot = TargetState::boot(script, input);
    assert(boot.pc == 9);
    let allocated = boot.step(script)->Running_0;
    assert(allocated.tape.len() == num_cells);
    assert(allocated.values[9usize] == (Value::TapePointer { offset: 0 }));
    let cleared = allocated.step(script)->Running_0;
    assert(cleared.tape =~= MachineView::fresh(num_cells as nat, input).tape);
    let reserved = cleared.step(script)->Running_0;
    let zeroed = reserved.step(script)->Running_0;
    let entered = zeroed.step(script)->Running_0;
    assert(boot.steps(script, 5) == Progress::Running(entered)) by {
        reveal_with_fuel(TargetState::steps, 6);
    }
    entered
}

/// The epilogue, run by the routine: the tape is freed and the routine
/// returns, with the tape, the input and the output as they were.
pub proof fn lemma_epilogue_simulates(
    script: Seq<OpView>,
    context: ContextView,
    at: nat,
    machine: MachineView,
    state: TargetState,
) -> (end: TargetState)
    requires
        stands_at(script, epilogue(context), at),
        script.len() <= usize::MAX,
        state.pc == at,
        related(machine, state, context),
    ensures
        state.steps(script, 2) == Progress::Halted(end),
        end.tape == machine.tape,
        end.input == machine.input,
        end.output == machine.output,
        !end.live,
{
    let ending = epilogue(context);
    let base = at as int;
    assert(script[base + 0] == ending[0]);
    assert(script[base + 1] == ending[1]);
    lemma_names_differ();
    let freed = state.step(script)->Running_0;
    assert(freed.step(script) == Progress::Halted(freed));
    assert(state.steps(script, 2) == Progress::Halted(freed)) by {
        reveal_with_fuel(TargetState::steps, 3);
    }
    freed
}

/// The script of a program does what the program does. Where the tape
/// machine, started on a tape of zeros, runs the program to its end, the
/// routine that the script builds returns after finitely many steps, and
/// it has then read the same input, written the same output and left the
/// same tape as the machine. Nothing is said of a run that leaves the
/// tape or that goes on forever.
pub proof fn lemma_lowered_program_simulates(
    program: Seq<InstructionView>,
    num_cells: u64,
    input: Seq<u8>,
    fuel: nat,
) -> (count: nat)
    requires
        num_cells <= i32::MAX,
        lower_program(program, num_cells).len() <= usize::MAX,
        MachineView::fresh(num_cells as nat, input).run(program, fuel) is Done,
    ensures
        ({
            let script = lower_program(program, num_cells);
            let after = MachineView::fresh(num_cells as nat, input).run(program, fuel)->Done_0;
            TargetState::boot(script, input).steps(script, count) matches Progress::Halted(end)
                && end.tape == after.tape && end.input == after.input && end.output
                == after.output
        }),
{
    let script = lower_program(program, num_cells);
    let context = prelude_context();
    let opening = prelude(num_cells);
    let body = lower_body(program, context, prelude_len());
    let ending = epilogue(context);
    let machine = MachineView::fresh(num_cells as nat, input);
    assert(opening.len() == 15);
    lemma_lowered_program_well_scoped(program, num_cells);
    assert(stands_at(script, opening + body + ending, 0));
    lemma_stands_at_parts(script, opening + body, ending, 0);
    lemma_stands_at_parts(script, opening, body, 0);
    let boot = TargetState::boot(script, input);
    let entered = lemma_prelude_simulates(script, num_cells, input);
    let (inside, finished) = lemma_body_simulates(
        script,
        program,
        context,
        prelude_len(),
        machine,
        entered,
        fuel,
    );
    let after = machine.run(program, fuel)->Done_0;
    let end = lemma_epilogue_simulates(script, context, 15 + body.len(), after, finished);
    lemma_steps_add(boot, script, 5, inside);
    lemma_steps_add(boot, script, 5 + inside, 2);
    5 + inside + 2
}

/// One run of instructions and then another are lowered to the requests
/// of the first and then the requests of the second.
pub proof fn lemma_lower_body_concat(
    first: Seq<InstructionView>,
    second: Seq<InstructionView>,
    context: ContextView,
    at: nat,
)
    ensures
        lower_body(first + second, context, at) == lower_body(first, context, at) + lower_body(
            second,
            context,
            at + lower_body(first, context, at).len(),
        ),
    decreases second.len(),
{
    let front = lower_body(first, context, at);
    if second.len() == 0 {
        assert(first + second =~= first);
        assert(front + lower_body(second, context, at + front.len()) =~= front);
    } else {
        let fewer = second.drop_last();
        assert((first + second).drop_last() =~= first + fewer);
        assert((first + second).last() == second.last());
        lemma_lower_body_concat(first, fewer, context, at);
        let middle = lower_body(fewer, context, at + front.len());
        let last = lower_instruction(second.last(), context, at + front.len() + middle.len());
        assert(lower_body(first + second, context, at) =~= front + (middle + last));
    }
}

/// Where a program holds a run of instructions between two others, at its
/// top level, its script holds the requests of the run, behind the prelude
/// and the requests of what comes before, and can host them there.
pub proof fn lemma_run_stands_in_program(
    before: Seq<InstructionView>,
    run: Seq<InstructionView>,
    after: Seq<InstructionView>,
    num_cells: u64,
) -> (at: nat)
    requires
        lower_program(before + run + after, num_cells).len() <= usize::MAX,
    ensures
        at == prelude_len() + lower_body(before, prelude_context(), prelude_len()).len(),
        hosts(lower_program(before + run + after, num_cells), prelude_context(), at),
        stands_at(
            lower_program(before + run + after, num_cells),
            lower_body(run, prelude_context(), at),
            at,
        ),
{
    let context = prelude_context();
    let program = before + run + after;
    let script = lower_program(program, num_cells);
    let opening = prelude(num_cells);
    let first = lower_body(before, context, prelude_len());
    let at = prelude_len() + first.len();
    let second = lower_body(run, context, at);
    let third = lower_body(after, context, at + second.len());
    let ending = epilogue(context);
    assert(opening.len() == 15);
    lemma_lower_body_concat(before, run, context, prelude_len());
    lemma_lower_body_concat(before + run, after, context, prelude_len());
    assert(script =~= opening + first + second + third + ending);
    assert forall|k: int| 0 <= k < second.len() implies script[at + k] == #[trigger] second[k] by {
        assert(script[at + k] == (opening + first + second)[at + k]);
    }
    lemma_lowered_program_well_scoped(program, num_cells);
    at
}

/// `IncrementCell` in the routine: wherever its requests stand, the
/// routine adds the amount to the current cell with 8-bit wraparound and
/// touches nothing else. A cell that holds 1 holds -128 after 127 was
/// added to it.
pub proof fn lemma_emitted_increment_wraps(
    script: Seq<OpView>,
    context: ContextView,
    amount: int,
    at: nat,
    machine: MachineView,
    state: TargetState,
) -> (end: TargetState)
    requires
        hosts(script, context, at),
        stands_at(script, lower_body(seq![increment_by(amount)], context, at), at),
        state.pc == at,
        related(machine, state, context),
        machine.on_tape(),
    ensures
        state.steps(script, 5) == Progress::Running(end),
        end.pc == at + 5,
        end.tape == state.tape.update(machine.cursor, wrap_i8(state.tape[machine.cursor] + amount)),
        end.slot == state.slot,
        end.input == state.input,
        end.output == state.output,
        state.tape[machine.cursor] == 1 && amount == 127 ==> end.tape[machine.cursor] == -128,
{
    lemma_lower_single(increment_by(amount), context, at);
    assert(lower_instruction(increment_by(amount), context, at) == increment_cell(
        context,
        amount,
        at,
    ));
    lemma_increment_simulates(script, context, amount, at, machine, state)
}

/// 256 times `IncrementCell` with one amount in the routine: wherever
/// their requests stand and whatever the current cell holds when they
/// start, the routine runs through them and the cell holds the same again;
/// nothing else is touched either.
pub proof fn lemma_emitted_increments_come_round(
    script: Seq<OpView>,
    context: ContextView,
    amount: int,
    at: nat,
    machine: MachineView,
    state: TargetState,
) -> (end: (nat, TargetState))
    requires
        hosts(script, context, at),
        stands_at(
            script,
            lower_body(repeated(increment_by(amount), 256), context, at),
            at,
        ),
        state.pc == at,
        related(machine, state, context),
        machine.on_tape(),
    ensures
        state.steps(script, end.0) == Progress::Running(end.1),
        end.1.pc == at + lower_body(repeated(increment_by(amount), 256), context, at).len(),
        end.1.tape == state.tape,
        end.1.slot == state.slot,
        end.1.input == state.input,
        end.1.output == state.output,
{
    assert(-128 <= machine.tape[machine.cursor] <= 127);
    lemma_increment_256_times(machine, amount);
    lemma_body_simulates(
        script,
        repeated(increment_by(amount), 256),
        context,
        at,
        machine,
        state,
        0,
    )
}

/// 256 times `IncrementCell` with one amount in the script of a program,
/// whatever comes before them and after them at the top level. Where the
/// tape machine runs what comes before to its end and is then on the
/// tape, the routine comes to the first of the 256 with the tape of the
/// machine, and it runs through all of them and has then the same tape
/// again, the same cursor, the same input and the same output.
pub proof fn lemma_program_increments_come_round(
    before: Seq<InstructionView>,
    after: Seq<InstructionView>,
    amount: int,
    num_cells: u64,
    input: Seq<u8>,
    fuel: nat,
) -> (steps: (nat, nat))
    requires
        num_cells <= i32::MAX,
        lower_program(before + repeated(increment_by(amount), 256) + after, num_cells).len()
            <= usize::MAX,
        MachineView::fresh(num_cells as nat, input).run(before, fuel) is Done,
        MachineView::fresh(num_cells as nat, input).run(before, fuel)->Done_0.on_tape(),
    ensures
        ({
            let script = lower_program(
                before + repeated(increment_by(amount), 256) + after,
                num_cells,
            );
            let machine = MachineView::fresh(num_cells as nat, input).run(before, fuel)->Done_0;
            &&& TargetState::boot(script, input).steps(script, steps.0) is Running
            &&& TargetState::boot(script, input).steps(script, steps.0)->Running_0.tape
                == machine.tape
            &&& TargetState::boot(script, input).steps(script, steps.0)->Running_0.steps(
                script,
                steps.1,
            ) is Running
            &&& ({
                let start = TargetState::boot(script, input).steps(script, steps.0)->Running_0;
                let end = start.steps(script, steps.1)->Running_0;
                end.tape == start.tape && end.slot == start.slot && end.input == start.input
                    && end.output == start.output && end.pc > start.pc
            })
        }),
{
    let context = prelude_context();
    let run = repeated(increment_by(amount), 256);
    let program = before + run + after;
    let script = lower_program(program, num_cells);
    let fresh = MachineView::fresh(num_cells as nat, input);
    let machine = fresh.run(before, fuel)->Done_0;
    let boot = TargetState::boot(script, input);
    let nothing = Seq::<InstructionView>::empty();
    assert(nothing + before + (run + after) =~= program);
    let first = lemma_run_stands_in_program(nothing, before, run + after, num_cells);
    assert(lower_body(nothing, context, prelude_len()) =~= Seq::<OpView>::empty());
    assert(first == prelude_len());
    let at = lemma_run_stands_in_program(before, run, after, num_cells);
    assert(stands_at(script, prelude(num_cells), 0)) by {
        let opening = prelude(num_cells);
        let rest = lower_body(program, context, prelude_len()) + epilogue(context);
        assert(script =~= opening + rest);
        assert forall|k: int| 0 <= k < opening.len() implies script[0 + k]
            == #[trigger] opening[k] by {}
    }
    let entered = lemma_prelude_simulates(script, num_cells, input);
    let (inside, start) = lemma_body_simulates(
        script,
        before,
        context,
        prelude_len(),
        fresh,
        entered,
        fuel,
    );
    lemma_steps_add(boot, script, 5, inside);
    let (round, end) = lemma_emitted_increments_come_round(
        script,
        context,
        amount,
        at,
        machine,
        start,
    );
    assert(lower_body(run, context, at).len() > 0) by {
        assert(run.len() > 0) by {
            reveal_with_fuel(repeated, 2);
        }
        let front = lower_body(run.drop_last(), context, at);
        assert(lower_instruction(run.last(), context, at + front.len()).len() > 0) by {
            reveal_with_fuel(repeated, 2);
            assert(run.last() == increment_by(amount));
            assert(increment_cell(context, amount, at + front.len()).len() == 5);
        }
    }
    (5 + inside, round)
}

/// A run of one instruction is lowered to the requests of the
/// instruction.
pub proof fn lemma_lower_single(instruction: InstructionView, context: ContextView, at: nat)
    ensures
        lower_body(seq![instruction], context, at) == lower_instruction(instruction, context, at),
{
    let run = seq![instruction];
    assert(run.drop_last() =~= Seq::<InstructionView>::empty());
    assert(lower_body(run.drop_last(), context, at) =~= Seq::<OpView>::empty());
    assert(run.last() == instruction);
    assert(lower_body(run, context, at) == lower_body(run.drop_last(), context, at)
        + lower_instruction(
        run.last(),
        context,
        at + lower_body(run.drop_last(), context, at).len(),
    ));
    assert(lower_body(run, context, at) =~= lower_instruction(instruction, context, at));
}

/// `IncrementCell(1)` and then `IncrementCell(127)` as a program: the
/// routine of its script returns, and the first cell of the tape, which
/// held 1 after the first instruction, holds -128. The addition wraps; it
/// does not stop the routine, and it does not stay at 127.
pub proof fn lemma_program_wraps_to_lowest(num_cells: u64, input: Seq<u8>) -> (count: nat)
    requires
        1 <= num_cells <= i32::MAX,
    ensures
        ({
            let script = lower_program(seq![increment_by(1), increment_by(127)], num_cells);
            TargetState::boot(script, input).steps(script, count) matches Progress::Halted(end)
                && end.tape.len() == num_cells && end.tape[0] == -128
        }),
{
    let context = prelude_context();
    let program = seq![increment_by(1), increment_by(127)];
    let one = seq![increment_by(1)];
    let nothing = Seq::<InstructionView>::empty();
    let fresh = MachineView::fresh(num_cells as nat, input);
    assert(program.drop_last() =~= one);
    assert(one.drop_last() =~= nothing);
    assert(program.last() == increment_by(127));
    assert(one.last() == increment_by(1));
    assert(fresh.run(nothing, 0) == Outcome::Done(fresh));
    let first = fresh.store(wrap_i8(fresh.current() + 1));
    assert(fresh.run(one, 0) == Outcome::Done(first)) by {
        assert(fresh.instruction(increment_by(1), 0) == fresh.leaf(increment_by(1).kind));
    }
    let second = first.store(wrap_i8(first.current() + 127));
    assert(fresh.run(program, 0) == Outcome::Done(second)) by {
        assert(first.instruction(increment_by(127), 0) == first.leaf(increment_by(127).kind));
    }
    assert(second.tape[0] == -128);
    assert(second.tape.len() == num_cells);
    assert(prelude(num_cells).len() == 15);
    let two = seq![increment_by(127)];
    lemma_lower_single(increment_by(1), context, prelude_len());
    lemma_lower_single(increment_by(127), context, prelude_len() + 5);
    assert(lower_instruction(increment_by(1), context, prelude_len()).len() == 5);
    assert(lower_instruction(increment_by(127), context, prelude_len() + 5).len() == 5);
    assert(one + two =~= program);
    lemma_lower_body_concat(one, two, context, prelude_len());
    assert(lower_program(program, num_cells).len() == 27);
    lemma_lowered_program_simulates(program, num_cells, input, 0)
}

} // verus!
