//! What a script means: the run of the entry routine that a backend builds
//! when it replays the script.
//!
//! The model follows the requests one by one. A jump goes to the request
//! behind the one that moved the builder into the block that is jumped
//! to. Memory is the tape that `malloc` returned, with whatever it held,
//! and the stack slot of the cursor. A read or a write through a pointer
//! that does not point into the tape has no defined result.

use crate::cell::wrap_i8;
use crate::compiler::script::{OpView, Operand, ValueType};
use vstd::prelude::*;

verus! {

/// The value that an integer takes once it is stored in 32 bits, read as
/// a signed number.
pub open spec fn wrap_i32(x: int) -> int {
    (x + 0x8000_0000) % 0x1_0000_0000 - 0x8000_0000
}

/// The value that an integer takes once it is stored in 64 bits, read as
/// a signed number.
pub open spec fn wrap_i64(x: int) -> int {
    (x + 0x8000_0000_0000_0000) % 0x1_0000_0000_0000_0000 - 0x8000_0000_0000_0000
}

/// The value that an integer takes in a type: a signed number of its
/// width, and for one bit, zero or one.
pub open spec fn wrap_to(ty: ValueType, x: int) -> int {
    match ty {
        ValueType::Int1 => x % 2,
        ValueType::Int8 => wrap_i8(x),
        ValueType::Int32 => wrap_i32(x),
        ValueType::Int64 => wrap_i64(x),
        _ => x,
    }
}

/// What a request yields when the routine runs.
pub enum Value {
    /// An integer of a type.
    Int { ty: ValueType, value: int },
    /// A pointer into the tape, or beside it: the offset from its start.
    TapePointer { offset: int },
    /// The pointer to the stack slot of the cursor.
    SlotPointer,
    /// Nothing that can be used.
    Nothing,
}

/// The routine in the middle of a run.
pub struct TargetState {
    /// The index of the request that comes next.
    pub pc: int,
    /// What the requests yielded that ran so far.
    pub values: Map<usize, Value>,
    /// The tape: empty until it is allocated.
    pub tape: Seq<int>,
    /// Whether the tape is allocated and not yet freed.
    pub live: bool,
    /// What the stack slot of the cursor holds.
    pub slot: int,
    /// The input that is still to be read.
    pub input: Seq<u8>,
    /// The output written so far.
    pub output: Seq<u8>,
}

/// How far a run has come.
pub enum Progress {
    /// The routine is in this state and goes on.
    Running(TargetState),
    /// The routine returned and left this state.
    Halted(TargetState),
    /// The routine did what has no defined result.
    Undefined,
}

/// The index of the first request from `from` on that moves the builder
/// into `block`, or the length of the script where there is none.
pub open spec fn find_entry(script: Seq<OpView>, block: usize, from: int) -> int
    decreases script.len() - from,
{
    if from < 0 || from >= script.len() {
        script.len() as int
    } else if script[from] == (OpView::PositionAtEnd { block }) {
        from
    } else {
        find_entry(script, block, from + 1)
    }
}

/// The index of the first request from `from` on that appends a block, or
/// the length of the script where there is none.
pub open spec fn first_block(script: Seq<OpView>, from: int) -> int
    decreases script.len() - from,
{
    if from < 0 || from >= script.len() {
        script.len() as int
    } else if script[from] is AppendBlock {
        from
    } else {
        first_block(script, from + 1)
    }
}

impl TargetState {
    /// The routine before its first instruction: it starts in the block
    /// that was appended first.
    pub open spec fn boot(script: Seq<OpView>, input: Seq<u8>) -> TargetState {
        TargetState {
            pc: find_entry(script, first_block(script, 0) as usize, 0) + 1,
            values: Map::empty(),
            tape: Seq::empty(),
            live: false,
            slot: 0,
            input,
            output: Seq::empty(),
        }
    }

    /// What an operand stands for.
    pub open spec fn operand(self, operand: Operand) -> Value {
        match operand {
            Operand::Const { ty, value } => Value::Int { ty, value: wrap_to(ty, value as int) },
            Operand::Value { op } => if self.values.contains_key(op) {
                self.values[op]
            } else {
                Value::Nothing
            },
        }
    }

    /// The state after the request at `pc` yielded `value`.
    pub open spec fn yields(self, value: Value) -> Progress {
        Progress::Running(
            TargetState {
                pc: self.pc + 1,
                values: self.values.insert(self.pc as usize, value),
                ..self
            },
        )
    }

    /// The state after the request at `pc` ran and yielded nothing.
    pub open spec fn next(self) -> Progress {
        Progress::Running(TargetState { pc: self.pc + 1, ..self })
    }

    /// The state after a jump into `block`.
    pub open spec fn jump(self, script: Seq<OpView>, block: usize) -> Progress {
        let entry = find_entry(script, block, 0);
        if entry < script.len() {
            Progress::Running(TargetState { pc: entry + 1, ..self })
        } else {
            Progress::Undefined
        }
    }

    /// A call of one of the C primitives.
    pub open spec fn call(self, callee: Seq<char>, args: Seq<Operand>) -> Progress {
        if callee == "malloc"@ {
            match self.operand(args[0]) {
                Value::Int { value, .. } => if args.len() == 1 && value >= 0 && !self.live {
                    TargetState {
                        tape: Seq::new(value as nat, |i: int| arbitrary::<int>()),
                        live: true,
                        ..self
                    }.yields(Value::TapePointer { offset: 0 })
                } else {
                    Progress::Undefined
                },
                _ => Progress::Undefined,
            }
        } else if callee == "llvm.memset.p0i8.i32"@ {
            match (self.operand(args[0]), self.operand(args[1]), self.operand(args[2])) {
                (
                    Value::TapePointer { offset },
                    Value::Int { value: fill, .. },
                    Value::Int { value: count, .. },
                ) => if args.len() == 5 && self.live && offset == 0 && 0 <= count
                    <= self.tape.len() {
                    TargetState {
                        tape: Seq::new(
                            self.tape.len(),
                            |i: int|
                                if i < count {
                                    fill
                                } else {
                                    self.tape[i]
                                },
                        ),
                        ..self
                    }.yields(Value::Nothing)
                } else {
                    Progress::Undefined
                },
                _ => Progress::Undefined,
            }
        } else if callee == "free"@ {
            match self.operand(args[0]) {
                Value::TapePointer { offset } => if args.len() == 1 && self.live && offset == 0 {
                    TargetState { live: false, ..self }.yields(Value::Nothing)
                } else {
                    Progress::Undefined
                },
                _ => Progress::Undefined,
            }
        } else if callee == "putchar"@ {
            match self.operand(args[0]) {
                Value::Int { value, .. } => if args.len() == 1 {
                    TargetState { output: self.output.push((value % 256) as u8), ..self }.yields(
                        Value::Int { ty: ValueType::Int32, value: value % 256 },
                    )
                } else {
                    Progress::Undefined
                },
                _ => Progress::Undefined,
            }
        } else if callee == "getchar"@ {
            if args.len() != 0 {
                Progress::Undefined
            } else if self.input.len() == 0 {
                self.yields(Value::Int { ty: ValueType::Int32, value: -1 })
            } else {
                TargetState { input: self.input.drop_first(), ..self }.yields(
                    Value::Int { ty: ValueType::Int32, value: self.input[0] as int },
                )
            }
        } else {
            Progress::Undefined
        }
    }

    /// A read through a pointer.
    pub open spec fn load(self, ty: ValueType, pointer: Value) -> Progress {
        match pointer {
            Value::SlotPointer => self.yields(Value::Int { ty, value: wrap_to(ty, self.slot) }),
            Value::TapePointer { offset } => if self.live && 0 <= offset < self.tape.len() {
                self.yields(Value::Int { ty, value: wrap_to(ty, self.tape[offset]) })
            } else {
                Progress::Undefined
            },
            _ => Progress::Undefined,
        }
    }

    /// A write through a pointer.
    pub open spec fn store(self, value: Value, pointer: Value) -> Progress {
        match (value, pointer) {
            (Value::Int { value, .. }, Value::SlotPointer) => TargetState {
                slot: value,
                ..self
            }.next(),
            (Value::Int { value, .. }, Value::TapePointer { offset }) => if self.live && 0
                <= offset < self.tape.len() {
                TargetState { tape: self.tape.update(offset, value), ..self }.next()
            } else {
                Progress::Undefined
            },
            _ => Progress::Undefined,
        }
    }

    /// The request at `pc`, carried out.
    pub open spec fn step(self, script: Seq<OpView>) -> Progress {
        if self.pc < 0 || self.pc >= script.len() {
            Progress::Undefined
        } else {
            match script[self.pc] {
                OpView::AddFunction { .. } => self.next(),
                OpView::AppendBlock { .. } => self.next(),
                OpView::PositionAtEnd { .. } => Progress::Undefined,
                OpView::Call { callee, args, .. } => self.call(callee, args),
                OpView::Alloca { .. } => self.yields(Value::SlotPointer),
                OpView::Store { value, pointer } => self.store(
                    self.operand(value),
                    self.operand(pointer),
                ),
                OpView::Load { ty, pointer } => self.load(ty, self.operand(pointer)),
                OpView::Add { lhs, rhs } => match (self.operand(lhs), self.operand(rhs)) {
                    (Value::Int { ty, value: left }, Value::Int { ty: other, value: right }) => if ty
                        == other {
                        self.yields(Value::Int { ty, value: wrap_to(ty, left + right) })
                    } else {
                        Progress::Undefined
                    },
                    _ => Progress::Undefined,
                },
                OpView::ElementPointer { base, index } => match (
                    self.operand(base),
                    self.operand(index),
                ) {
                    (Value::TapePointer { offset }, Value::Int { value, .. }) => self.yields(
                        Value::TapePointer { offset: offset + value },
                    ),
                    _ => Progress::Undefined,
                },
                OpView::Truncate { value, to } => match self.operand(value) {
                    Value::Int { value, .. } => self.yields(
                        Value::Int { ty: to, value: wrap_to(to, value) },
                    ),
                    _ => Progress::Undefined,
                },
                OpView::SignExtend { value, to } => match self.operand(value) {
                    Value::Int { value, .. } => self.yields(Value::Int { ty: to, value }),
                    _ => Progress::Undefined,
                },
                OpView::IsNotZero { value } => match self.operand(value) {
                    Value::Int { value, .. } => self.yields(
                        Value::Int {
                            ty: ValueType::Int1,
                            value: if value != 0 {
                                1int
                            } else {
                                0int
                            },
                        },
                    ),
                    _ => Progress::Undefined,
                },
                OpView::Branch { target } => self.jump(script, target),
                OpView::BranchIf { condition, then_block, else_block } => match self.operand(
                    condition,
                ) {
                    Value::Int { value, .. } => if value != 0 {
                        self.jump(script, then_block)
                    } else {
                        self.jump(script, else_block)
                    },
                    _ => Progress::Undefined,
                },
                OpView::Return { .. } => Progress::Halted(self),
            }
        }
    }

    /// The state after `count` requests were carried out, or the end of
    /// the run where it comes sooner.
    pub open spec fn steps(self, script: Seq<OpView>, count: nat) -> Progress
        decreases count,
    {
        if count == 0 {
            Progress::Running(self)
        } else {
            match self.step(script) {
                Progress::Running(next) => next.steps(script, (count - 1) as nat),
                other => other,
            }
        }
    }
}

/// Running for some steps and then for some more is running for all of
/// them.
pub proof fn lemma_steps_add(state: TargetState, script: Seq<OpView>, first: nat, second: nat)
    ensures
        state.steps(script, first + second) == match state.steps(script, first) {
            Progress::Running(between) => between.steps(script, second),
            other => other,
        },
    decreases first,
{
    if first > 0 {
        match state.step(script) {
            Progress::Running(next) => {
                lemma_steps_add(next, script, (first - 1) as nat, second);
                assert(state.steps(script, first + second) == next.steps(
                    script,
                    (first + second - 1) as nat,
                ));
            },
            _ => {},
        }
    } else {
        assert(first + second == second);
    }
}

} // verus!
