//! The tape machine: what the instructions of a program do.
//!
//! A machine is a tape of cells, a cursor on the tape, the input that is
//! still to be read and the output written so far. A cursor that leaves
//! the tape is not brought back: a step that touches a cell while the
//! cursor is off the tape has no defined result. At the end of input,
//! `InputCell` stores -1.

use crate::cell::{incremented, lemma_incremented_closed_form, lemma_wrap_i8_periodic, wrap_i8};
use crate::parser::model::{InstructionView, KindView};
use vstd::prelude::*;

verus! {

/// A machine as a mathematical value.
pub struct MachineView {
    /// The cells of the tape, each between -128 and 127.
    pub tape: Seq<int>,
    /// The index of the current cell.
    pub cursor: int,
    /// The input that is still to be read.
    pub input: Seq<u8>,
    /// The output written so far.
    pub output: Seq<u8>,
}

/// How a run ended.
pub enum Outcome {
    /// The program ran to its end and left this machine.
    Done(MachineView),
    /// A cell was touched while the cursor was off the tape.
    OffTape,
    /// A loop went on for more rounds than it was allowed.
    OutOfFuel,
}

impl MachineView {
    /// The machine before the first instruction: a tape of zeros, the
    /// cursor on its first cell, all the input to come and no output yet.
    pub open spec fn fresh(num_cells: nat, input: Seq<u8>) -> MachineView {
        MachineView {
            tape: Seq::new(num_cells, |i: int| 0int),
            cursor: 0,
            input,
            output: Seq::empty(),
        }
    }

    /// Whether the cursor is on the tape.
    pub open spec fn on_tape(self) -> bool {
        0 <= self.cursor < self.tape.len()
    }

    /// The content of the current cell.
    pub open spec fn current(self) -> int {
        self.tape[self.cursor]
    }

    /// The machine with `value` in the current cell.
    pub open spec fn store(self, value: int) -> MachineView {
        MachineView { tape: self.tape.update(self.cursor, value), ..self }
    }

    /// One instruction that is no loop.
    pub open spec fn leaf(self, kind: KindView) -> Outcome {
        match kind {
            KindView::MovePointer { amount } => Outcome::Done(
                MachineView { cursor: self.cursor + amount, ..self },
            ),
            _ => if !self.on_tape() {
                Outcome::OffTape
            } else {
                match kind {
                    KindView::IncrementCell { amount } => Outcome::Done(
                        self.store(wrap_i8(self.current() + amount)),
                    ),
                    KindView::OutputCell => Outcome::Done(
                        MachineView {
                            output: self.output.push((self.current() % 256) as u8),
                            ..self
                        },
                    ),
                    KindView::InputCell => if self.input.len() == 0 {
                        Outcome::Done(self.store(-1))
                    } else {
                        Outcome::Done(
                            MachineView {
                                input: self.input.drop_first(),
                                ..self.store(wrap_i8(self.input[0] as int))
                            },
                        )
                    },
                    _ => Outcome::Done(self),
                }
            },
        }
    }

    /// One instruction. A loop tests the current cell before every round,
    /// the first included, and may run for at most `fuel` rounds; a loop
    /// inside it gets one round less, every time.
    pub open spec fn instruction(self, instruction: InstructionView, fuel: nat) -> Outcome
        decreases fuel, instruction, 0nat,
    {
        match instruction.kind {
            KindView::Loop { body } => self.rounds(body, fuel),
            kind => self.leaf(kind),
        }
    }

    /// The rounds of a loop with this body.
    pub open spec fn rounds(self, body: Seq<InstructionView>, fuel: nat) -> Outcome
        decreases fuel, body, 2nat,
    {
        if !self.on_tape() {
            Outcome::OffTape
        } else if self.current() == 0 {
            Outcome::Done(self)
        } else if fuel == 0 {
            Outcome::OutOfFuel
        } else {
            match self.run(body, (fuel - 1) as nat) {
                Outcome::Done(after) => after.rounds(body, (fuel - 1) as nat),
                other => other,
            }
        }
    }

    /// A run of instructions, one after the other.
    pub open spec fn run(self, body: Seq<InstructionView>, fuel: nat) -> Outcome
        decreases fuel, body, 1nat,
    {
        if body.len() == 0 {
            Outcome::Done(self)
        } else {
            match self.run(body.drop_last(), fuel) {
                Outcome::Done(before) => before.instruction(body.last(), fuel),
                other => other,
            }
        }
    }
}

/// One instruction, `times` times over.
pub open spec fn repeated(instruction: InstructionView, times: nat) -> Seq<InstructionView>
    decreases times,
{
    if times == 0 {
        Seq::empty()
    } else {
        repeated(instruction, (times - 1) as nat).push(instruction)
    }
}

/// `IncrementCell` with this amount, as a value.
pub open spec fn increment_by(amount: int) -> InstructionView {
    InstructionView { position: None, kind: KindView::IncrementCell { amount } }
}

/// `IncrementCell` run `times` times adds its amount to the current cell
/// `times` times, wrapping each time, and changes nothing else.
pub proof fn lemma_increments(machine: MachineView, amount: int, times: nat)
    requires
        machine.on_tape(),
    ensures
        machine.run(repeated(increment_by(amount), times), 0) == Outcome::Done(
            if times == 0 {
                machine
            } else {
                machine.store(incremented(machine.current(), amount, times))
            },
        ),
    decreases times,
{
    let step = increment_by(amount);
    let steps = repeated(step, times);
    if times > 0 {
        let fewer = repeated(step, (times - 1) as nat);
        assert(steps.drop_last() =~= fewer);
        assert(steps.last() == step);
        lemma_increments(machine, amount, (times - 1) as nat);
        let before = if times == 1 {
            machine
        } else {
            machine.store(incremented(machine.current(), amount, (times - 1) as nat))
        };
        assert(machine.run(fewer, 0) == Outcome::Done(before));
        assert(before.on_tape());
        assert(before.current() == incremented(machine.current(), amount, (times - 1) as nat));
        assert(before.instruction(step, 0) == before.leaf(step.kind));
        assert(before.store(wrap_i8(before.current() + amount)).tape =~= machine.store(
            incremented(machine.current(), amount, times),
        ).tape);
        assert(machine.run(steps, 0) == before.instruction(step, 0));
    }
}

/// A machine that runs `IncrementCell` with one amount 256 times is then
/// what it was before: the current cell has come round to its value, and
/// nothing else was touched.
pub proof fn lemma_increment_256_times(machine: MachineView, amount: int)
    requires
        machine.on_tape(),
        -128 <= machine.current() <= 127,
    ensures
        machine.run(repeated(increment_by(amount), 256), 0) == Outcome::Done(machine),
{
    lemma_increments(machine, amount, 256);
    lemma_incremented_closed_form(machine.current(), amount, 256);
    lemma_wrap_i8_periodic(machine.current(), amount);
    assert(machine.store(machine.current()).tape =~= machine.tape);
}

} // verus!
