use midilang::cell::Cell;
use midilang::compiler::script::BackendOp::{
    Add, AddFunction, Alloca, AppendBlock, Branch, BranchIf, Call, ElementPointer, IsNotZero,
    Load, PositionAtEnd, Return, SignExtend, Store, Truncate,
};
use midilang::compiler::script::ValueType::{Int1, Int32, Int8, Int8Ptr, Void};
use midilang::compiler::script::{BackendOp, Operand, ValueType};
use midilang::compiler::{compile_program, MCompileError, MidiCompiler, Phase};
use midilang::parser::MidiInstructionKind::Loop;
use midilang::parser::{MidiInstruction, Position};

fn value(op: usize) -> Operand {
    Operand::Value { op }
}

fn constant(ty: ValueType, value: u64) -> Operand {
    Operand::Const { ty, value }
}

fn declare(name: &str, params: Vec<ValueType>, ret: ValueType) -> BackendOp {
    AddFunction { name: name.to_string(), params, ret }
}

fn block(function: usize, name: &str) -> BackendOp {
    AppendBlock { function, name: name.to_string() }
}

fn call(callee: &str, args: Vec<Operand>, name: &str) -> BackendOp {
    Call { callee: callee.to_string(), args, name: name.to_string() }
}

fn prelude(num_cells: u64) -> Vec<BackendOp> {
    vec![
        declare("malloc", vec![Int32], Int8Ptr),
        declare("free", vec![Int8Ptr], Void),
        declare("putchar", vec![Int32], Int32),
        declare("getchar", vec![], Int32),
        declare("llvm.memset.p0i8.i32", vec![Int8Ptr, Int8, Int32, Int32, Int1], Void),
        declare("main", vec![], Int32),
        block(5, "init"),
        block(5, "start"),
        PositionAtEnd { block: 6 },
        call("malloc", vec![constant(Int32, num_cells)], "cells"),
        call(
            "llvm.memset.p0i8.i32",
            vec![
                value(9),
                constant(Int8, 0),
                constant(Int32, num_cells),
                constant(Int32, 0),
                constant(Int1, 0),
            ],
            "",
        ),
        Alloca { ty: Int32, name: "cell_idx_ptr".to_string() },
        Store { value: constant(Int32, 0), pointer: value(11) },
        Branch { target: 7 },
        PositionAtEnd { block: 7 },
    ]
}

fn epilogue() -> Vec<BackendOp> {
    vec![call("free", vec![value(9)], "free_cells"), Return { value: constant(Int32, 0) }]
}

fn whole(num_cells: u64, body: Vec<BackendOp>) -> Vec<BackendOp> {
    let mut script = prelude(num_cells);
    script.extend(body);
    script.extend(epilogue());
    script
}

fn closed_loop(body: Vec<MidiInstruction>) -> MidiInstruction {
    MidiInstruction { position: Some(Position::new(0, 1)), instruction: Loop { body } }
}

#[test]
fn empty_program_is_setup_and_teardown() {
    assert_eq!(compile_program(&vec![], 30000).unwrap(), whole(30000, vec![]));
    assert_eq!(compile_program(&vec![], 1).unwrap().len(), 17);
}

#[test]
fn increment_adds_the_byte_pattern_of_the_amount() {
    let lowered = |amount: i8, pattern: u64| {
        assert_eq!(
            compile_program(&vec![MidiInstruction::new_inc(Cell(amount))], 8).unwrap(),
            whole(
                8,
                vec![
                    Load { ty: Int32, pointer: value(11) },
                    ElementPointer { base: value(9), index: value(15) },
                    Load { ty: Int8, pointer: value(16) },
                    Add { lhs: value(17), rhs: constant(Int8, pattern) },
                    Store { value: value(18), pointer: value(16) },
                ]
            )
        );
    };
    lowered(1, 1);
    lowered(127, 127);
    lowered(0, 0);
    lowered(-1, 255);
    lowered(-128, 128);
}

#[test]
fn move_adds_the_word_pattern_of_the_amount() {
    let lowered = |amount: isize, pattern: u64| {
        assert_eq!(
            compile_program(&vec![MidiInstruction::new_move(amount)], 8).unwrap(),
            whole(
                8,
                vec![
                    Load { ty: Int32, pointer: value(11) },
                    Add { lhs: value(15), rhs: constant(Int32, pattern) },
                    Store { value: value(16), pointer: value(11) },
                ]
            )
        );
    };
    lowered(1, 1);
    lowered(16, 16);
    lowered(-1, 0xffff_ffff);
    lowered(-128, 0xffff_ff80);
    lowered(0, 0);
    lowered(isize::MAX, 0xffff_ffff);
    lowered(isize::MIN, 0);
}

#[test]
fn output_and_input_call_the_c_primitives() {
    assert_eq!(
        compile_program(&vec![MidiInstruction::new_output(), MidiInstruction::new_input()], 2)
            .unwrap(),
        whole(
            2,
            vec![
                Load { ty: Int32, pointer: value(11) },
                ElementPointer { base: value(9), index: value(15) },
                Load { ty: Int8, pointer: value(16) },
                SignExtend { value: value(17), to: Int32 },
                call("putchar", vec![value(18)], ""),
                call("getchar", vec![], ""),
                Truncate { value: value(20), to: Int8 },
                Load { ty: Int32, pointer: value(11) },
                ElementPointer { base: value(9), index: value(22) },
                Store { value: value(21), pointer: value(23) },
            ]
        )
    );
}

#[test]
fn loop_is_lowered_to_three_blocks() {
    let program = vec![closed_loop(vec![MidiInstruction::new_move(1)])];
    assert_eq!(
        compile_program(&program, 4).unwrap(),
        whole(
            4,
            vec![
                block(5, "loop_header"),
                block(5, "loop_body"),
                block(5, "loop_after"),
                Branch { target: 15 },
                PositionAtEnd { block: 15 },
                Load { ty: Int32, pointer: value(11) },
                ElementPointer { base: value(9), index: value(20) },
                Load { ty: Int8, pointer: value(21) },
                IsNotZero { value: value(22) },
                BranchIf { condition: value(23), then_block: 16, else_block: 17 },
                PositionAtEnd { block: 16 },
                Load { ty: Int32, pointer: value(11) },
                Add { lhs: value(26), rhs: constant(Int32, 1) },
                Store { value: value(27), pointer: value(11) },
                Branch { target: 15 },
                PositionAtEnd { block: 17 },
            ]
        )
    );
}

#[test]
fn nested_loops_jump_back_to_their_own_test() {
    let program = vec![closed_loop(vec![closed_loop(vec![])]), MidiInstruction::new_input()];
    let script = compile_program(&program, 4).unwrap();
    assert_eq!(script.len(), 15 + 11 + 11 + 2 + 2 + 5 + 2);
    // the inner loop stands in the body of the outer loop
    assert_eq!(script[26], block(5, "loop_header"));
    assert_eq!(script[35], BranchIf { condition: value(34), then_block: 27, else_block: 28 });
    assert_eq!(script[37], Branch { target: 26 });
    assert_eq!(script[38], PositionAtEnd { block: 28 });
    assert_eq!(script[39], Branch { target: 15 });
    assert_eq!(script[40], PositionAtEnd { block: 17 });
    assert_eq!(script[41], call("getchar", vec![], ""));
}

#[test]
fn compiling_twice_gives_the_same_script() {
    let program = vec![
        MidiInstruction::new_inc(Cell(5)),
        closed_loop(vec![MidiInstruction::new_output(), MidiInstruction::new_inc(Cell(-1))]),
    ];
    assert_eq!(compile_program(&program, 100).unwrap(), compile_program(&program, 100).unwrap());
    assert_ne!(compile_program(&program, 100).unwrap(), compile_program(&program, 101).unwrap());
}

#[test]
fn phases_run_from_uninitialized_to_done() {
    let mut compiler = MidiCompiler::new("midilang");
    assert_eq!(compiler.module_name(), "midilang");
    assert_eq!(compiler.phase(), Phase::Uninitialized);
    assert!(compiler.script().is_empty());
    assert_eq!(compiler.init(16), Ok(()));
    assert_eq!(compiler.phase(), Phase::Emitting);
    assert_eq!(compiler.script(), &prelude(16));
    assert_eq!(compiler.compile_instruction(&MidiInstruction::new_move(2)), Ok(()));
    assert_eq!(compiler.compile_body(&vec![MidiInstruction::new_move(3)]), Ok(()));
    assert_eq!(compiler.phase(), Phase::Emitting);
    assert_eq!(compiler.script().len(), 21);
    assert_eq!(compiler.cleanup(), Ok(()));
    assert_eq!(compiler.phase(), Phase::Done);
    assert_eq!(compiler.script()[21..], epilogue()[..]);
}

#[test]
fn nothing_is_emitted_before_the_tape_is_set_up() {
    let mut compiler = MidiCompiler::new("early");
    assert_eq!(compiler.cleanup(), Err(MCompileError::UninitializedContext));
    assert_eq!(
        compiler.compile_instruction(&MidiInstruction::new_input()),
        Err(MCompileError::UninitializedContext)
    );
    assert_eq!(compiler.compile_body(&vec![]), Err(MCompileError::UninitializedContext));
    assert!(compiler.script().is_empty());
    assert_eq!(compiler.phase(), Phase::Uninitialized);
}
