//! Code generation for the tape machine against a native backend.
//!
//! The compiler does not talk to a backend itself. It writes the requests
//! that it makes of one into a script, in the order in which a backend has
//! to carry them out, and a backend replays the script.
//!
//! `lowering` says which script a program is lowered to. `laws` and
//! `protocol` show that every such script is well formed, `semantics`
//! says what a script means, and `correctness` shows that the script of a
//! program means what the program does on the tape machine.

pub mod correctness;
pub mod laws;
pub mod lowering;
pub mod protocol;
pub mod script;
pub mod semantics;

use crate::compiler::lowering::{
    allocation, byte_pattern, cell_address, declarations, epilogue, increment_cell, init_block,
    input_cell, loop_foot, loop_head, lower_body, lower_instruction, lower_program,
    move_pointer, output_cell, prelude, prelude_context, start_block, word_pattern,
    ContextView,
};
use crate::compiler::laws::{lemma_lowered_program_well_scoped, well_scoped};
use crate::compiler::protocol::{keeps_discipline, lemma_lowered_program_keeps_discipline};
use crate::compiler::script::{script_view, BackendOp, OpView, Operand, ValueType};
use crate::parser::model::InstructionView;
use crate::parser::{
    lemma_program_view_index, program_view, MidiAST, MidiInstruction, MidiInstructionKind,
};
use vstd::prelude::*;
use vstd::string::StringExecFns;

verus! {

/// Why code generation failed.
#[derive(Debug, PartialEq, Eq)]
pub enum MCompileError {
    /// The backend rejected a request: its message, word for word.
    LLVMError(String),
    /// Code was asked for before the tape and the cursor were set up.
    UninitializedContext,
}

/// What code generation gives back.
pub type MCompileResult<T> = Result<T, MCompileError>;

impl MCompileError {
    /// The message that goes with the error. What the backend said is
    /// kept word for word.
    pub fn describe(&self) -> (text: String)
        ensures
            text@ == match self {
                MCompileError::LLVMError(msg) => "LLVM raised an error "@ + msg@,
                MCompileError::UninitializedContext => "Compiler Context was not initialized!"@,
            },
    {
        match self {
            MCompileError::LLVMError(msg) => {
                let mut text = "LLVM raised an error ".to_owned();
                text.append(msg.as_str());
                text
            },
            MCompileError::UninitializedContext => {
                "Compiler Context was not initialized!".to_owned()
            },
        }
    }
}

/// How far code generation has come.
#[derive(Clone, Copy, Debug, PartialEq, Eq, Structural)]
pub enum Phase {
    Uninitialized,
    Declaring,
    Allocating,
    Emitting,
    Finalizing,
    Done,
}

/// The handles that instructions are lowered against.
#[derive(Clone, Copy, Debug, PartialEq, Eq, Structural)]
pub struct MidiContext {
    pub cells_ptr: usize,
    pub cell_idx_ptr: usize,
    pub main_fn: usize,
}

impl View for MidiContext {
    type V = ContextView;

    open spec fn view(&self) -> ContextView {
        ContextView {
            cells_ptr: self.cells_ptr,
            cell_idx_ptr: self.cell_idx_ptr,
            main_fn: self.main_fn,
        }
    }
}

/// A compiler as a mathematical value.
pub struct CompilerView {
    pub module_name: Seq<char>,
    pub script: Seq<OpView>,
    pub blocks: Option<(usize, usize)>,
    pub context: Option<ContextView>,
    pub phase: Phase,
}

/// Generates the code of one module.
pub struct MidiCompiler {
    module_name: String,
    script: Vec<BackendOp>,
    blocks: Option<(usize, usize)>,
    context: Option<MidiContext>,
    phase: Phase,
}

impl View for MidiCompiler {
    type V = CompilerView;

    closed spec fn view(&self) -> CompilerView {
        CompilerView {
            module_name: self.module_name@,
            script: script_view(self.script@),
            blocks: self.blocks,
            context: match self.context {
                Some(context) => Some(context@),
                None => None,
            },
            phase: self.phase,
        }
    }
}

impl CompilerView {
    /// A compiler that has asked nothing of the backend yet.
    pub open spec fn fresh(module_name: Seq<char>) -> CompilerView {
        CompilerView {
            module_name,
            script: Seq::empty(),
            blocks: None,
            context: None,
            phase: Phase::Uninitialized,
        }
    }

    /// The compiler after it made more requests.
    pub open spec fn with(self, requests: Seq<OpView>) -> CompilerView {
        CompilerView { script: self.script + requests, ..self }
    }

    /// The compiler in another phase.
    pub open spec fn in_phase(self, phase: Phase) -> CompilerView {
        CompilerView { phase, ..self }
    }

    /// The handles exist from the moment on at which the tape and the
    /// cursor are set up.
    pub open spec fn well_formed(self) -> bool {
        &&& self.phase is Uninitialized ==> self == CompilerView::fresh(self.module_name)
        &&& self.context is Some <==> (self.phase is Emitting || self.phase is Finalizing
            || self.phase is Done)
    }
}

impl MidiCompiler {
    /// A compiler for a module of this name that has asked nothing of the
    /// backend yet.
    pub fn new(module_name: &str) -> (compiler: MidiCompiler)
        ensures
            compiler@ == CompilerView::fresh(module_name@),
            compiler@.well_formed(),
    {
        let compiler = MidiCompiler {
            module_name: module_name.to_owned(),
            script: Vec::new(),
            blocks: None,
            context: None,
            phase: Phase::Uninitialized,
        };
        assert(compiler@.script =~= Seq::empty());
        compiler
    }

    /// The requests made so far.
    pub fn script(&self) -> (script: &Vec<BackendOp>)
        ensures
            script_view(script@) == self@.script,
    {
        &self.script
    }

    /// The name of the module.
    pub fn module_name(&self) -> (name: &str)
        ensures
            name@ == self@.module_name,
    {
        self.module_name.as_str()
    }

    /// How far code generation has come.
    pub fn phase(&self) -> (phase: Phase)
        ensures
            phase == self@.phase,
    {
        self.phase
    }

    /// Writes one request down. It is referred to by the index returned.
    fn emit(&mut self, op: BackendOp) -> (index: usize)
        ensures
            final(self)@ == old(self)@.with(seq![op@]),
            index == old(self)@.script.len(),
    {
        let index = self.script.len();
        self.script.push(op);
        assert(self@.script =~= old(self)@.script + seq![op@]);
        index
    }

    /// Declares the C primitives, sets up the entry routine with its two
    /// blocks, allocates the tape and the cursor, and leaves the builder
    /// at the start of the block that takes the program. The cursor is a
    /// signed 32-bit index, so the tape can have no more cells than such an
    /// index reaches.
    pub fn init(&mut self, num_cells: u64) -> (result: MCompileResult<()>)
        requires
            old(self)@.well_formed(),
            old(self)@.phase is Uninitialized,
            num_cells <= i32::MAX,
        ensures
            result is Ok,
            final(self)@ == (CompilerView {
                module_name: old(self)@.module_name,
                script: prelude(num_cells),
                blocks: Some((init_block(), start_block())),
                context: Some(prelude_context()),
                phase: Phase::Emitting,
            }),
            final(self)@.well_formed(),
    {
        self.phase = Phase::Declaring;
        self.add_c_declarations();
        let main_fn = self.add_main_fn();
        let (init_bb, start_bb) = self.add_initial_blocks(main_fn);
        self.blocks = Some((init_bb, start_bb));
        self.position_builder_at_end(init_bb);
        self.phase = Phase::Allocating;
        let cells_ptr = self.allocate_cells(num_cells);
        let cell_idx_ptr = self.create_cell_idx_ptr();
        self.context = Some(MidiContext { cells_ptr, cell_idx_ptr, main_fn });
        self.emit(BackendOp::Branch { target: start_bb });
        self.position_builder_at_end(start_bb);
        self.phase = Phase::Emitting;
        proof {
            assert(self@.script =~= prelude(num_cells));
        }
        Ok(())
    }

    fn add_c_declarations(&mut self)
        ensures
            final(self)@ == old(self)@.with(declarations()),
    {
        let malloc_args = vec![ValueType::Int32];
        let free_args = vec![ValueType::Int8Ptr];
        let putchar_args = vec![ValueType::Int32];
        let getchar_args: Vec<ValueType> = vec![];
        let memset_args = vec![
            ValueType::Int8Ptr,
            ValueType::Int8,
            ValueType::Int32,
            ValueType::Int32,
            ValueType::Int1,
        ];
        proof {
            assert(malloc_args@ =~= seq![ValueType::Int32]);
            assert(free_args@ =~= seq![ValueType::Int8Ptr]);
            assert(putchar_args@ =~= seq![ValueType::Int32]);
            assert(getchar_args@ =~= seq![]);
            assert(memset_args@ =~= seq![
                ValueType::Int8Ptr,
                ValueType::Int8,
                ValueType::Int32,
                ValueType::Int32,
                ValueType::Int1,
            ]);
        }
        self.add_function("malloc", malloc_args, ValueType::Int8Ptr);
        self.add_function("free", free_args, ValueType::Void);
        self.add_function("putchar", putchar_args, ValueType::Int32);
        self.add_function("getchar", getchar_args, ValueType::Int32);
        self.add_function("llvm.memset.p0i8.i32", memset_args, ValueType::Void);
        proof {
            assert(self@.script =~= old(self)@.script + declarations());
        }
    }

    /// Allocates the tape and clears it. Returns the handle of the tape.
    fn allocate_cells(&mut self, num_cells: u64) -> (cells_ptr: usize)
        ensures
            final(self)@ == old(self)@.with(
                allocation_of_tape(num_cells, old(self)@.script.len()),
            ),
            cells_ptr == old(self)@.script.len(),
    {
        let num_cells_llvm = int32(num_cells);
        let malloc_args = vec![num_cells_llvm];
        assert(malloc_args@ =~= seq![num_cells_llvm]);
        let cells_ptr = self.add_function_call("malloc", malloc_args, "cells");
        let zero_i8 = int8(0);
        let one_i32 = int32(0);
        let false_i1 = int1(0);
        let memset_args = vec![
            Operand::Value { op: cells_ptr },
            zero_i8,
            num_cells_llvm,
            one_i32,
            false_i1,
        ];
        assert(memset_args@ =~= seq![
            Operand::Value { op: cells_ptr },
            zero_i8,
            num_cells_llvm,
            one_i32,
            false_i1,
        ]);
        self.add_function_call("llvm.memset.p0i8.i32", memset_args, "");
        proof {
            assert(self@.script =~= old(self)@.script + allocation_of_tape(
                num_cells,
                old(self)@.script.len(),
            ));
        }
        cells_ptr
    }

    /// Reserves the cursor and sets it to zero. Returns its handle.
    fn create_cell_idx_ptr(&mut self) -> (cell_idx_ptr: usize)
        ensures
            final(self)@ == old(self)@.with(allocation_of_cursor(old(self)@.script.len())),
            cell_idx_ptr == old(self)@.script.len(),
    {
        let cell_idx_ptr = self.emit(
            BackendOp::Alloca { ty: ValueType::Int32, name: "cell_idx_ptr".to_owned() },
        );
        self.emit(
            BackendOp::Store { value: int32(0), pointer: Operand::Value { op: cell_idx_ptr } },
        );
        proof {
            assert(self@.script =~= old(self)@.script + allocation_of_cursor(
                old(self)@.script.len(),
            ));
        }
        cell_idx_ptr
    }

    fn add_main_fn(&mut self) -> (main_fn: usize)
        ensures
            final(self)@ == old(self)@.with(
                seq![OpView::AddFunction { name: "main"@, params: seq![], ret: ValueType::Int32 }],
            ),
            main_fn == old(self)@.script.len(),
    {
        let main_args: Vec<ValueType> = vec![];
        assert(main_args@ =~= seq![]);
        self.emit(
            BackendOp::AddFunction { name: "main".to_owned(), params: main_args, ret: ValueType::Int32 },
        )
    }

    fn add_initial_blocks(&mut self, main_fn: usize) -> (blocks: (usize, usize))
        ensures
            final(self)@ == old(self)@.with(
                seq![
                    OpView::AppendBlock { function: main_fn, name: "init"@ },
                    OpView::AppendBlock { function: main_fn, name: "start"@ },
                ],
            ),
            blocks.0 == old(self)@.script.len(),
            blocks.1 == old(self)@.script.len() + 1,
    {
        let init_bb = self.emit(
            BackendOp::AppendBlock { function: main_fn, name: "init".to_owned() },
        );
        let start_bb = self.emit(
            BackendOp::AppendBlock { function: main_fn, name: "start".to_owned() },
        );
        proof {
            assert(self@.script =~= old(self)@.script + seq![
                OpView::AppendBlock { function: main_fn, name: "init"@ },
                OpView::AppendBlock { function: main_fn, name: "start"@ },
            ]);
        }
        (init_bb, start_bb)
    }

    /// Ends the entry routine: frees the tape and returns zero. Before the
    /// tape is set up there is nothing to free, and the call is refused.
    pub fn cleanup(&mut self) -> (result: MCompileResult<()>)
        requires
            old(self)@.well_formed(),
            !(old(self)@.phase is Done),
        ensures
            final(self)@.well_formed(),
            match old(self)@.context {
                Some(context) => result is Ok && final(self)@ == old(self)@.with(
                    epilogue(context),
                ).in_phase(Phase::Done),
                None => result == Err::<(), MCompileError>(MCompileError::UninitializedContext)
                    && final(self)@ == old(self)@,
            },
    {
        match self.context {
            Some(xx) => {
                self.phase = Phase::Finalizing;
                self.free_cells(xx.cells_ptr);
                self.build_return();
                self.phase = Phase::Done;
                proof {
                    assert(self@.script =~= old(self)@.script + epilogue(xx@));
                }
            },
            None => {
                return Err(MCompileError::UninitializedContext);
            },
        }
        Ok(())
    }

    fn free_cells(&mut self, cells: usize)
        ensures
            final(self)@ == old(self)@.with(
                seq![
                    OpView::Call {
                        callee: "free"@,
                        args: seq![Operand::Value { op: cells }],
                        name: "free_cells"@,
                    },
                ],
            ),
    {
        let free_args = vec![Operand::Value { op: cells }];
        assert(free_args@ =~= seq![Operand::Value { op: cells }]);
        self.add_function_call("free", free_args, "free_cells");
    }

    fn build_return(&mut self)
        ensures
            final(self)@ == old(self)@.with(
                seq![OpView::Return { value: Operand::Const { ty: ValueType::Int32, value: 0 } }],
            ),
    {
        let zero = int32(0);
        self.emit(BackendOp::Return { value: zero });
    }

    /// Declares a function of the module.
    fn add_function(&mut self, fn_name: &str, fn_args: Vec<ValueType>, ret_ty: ValueType)
        ensures
            final(self)@ == old(self)@.with(
                seq![OpView::AddFunction { name: fn_name@, params: fn_args@, ret: ret_ty }],
            ),
    {
        self.emit(
            BackendOp::AddFunction { name: fn_name.to_owned(), params: fn_args, ret: ret_ty },
        );
    }

    /// Calls a function of the module by its name. Returns the handle of
    /// the result.
    fn add_function_call(&mut self, fn_name: &str, fn_args: Vec<Operand>, name: &str) -> (value:
        usize)
        ensures
            final(self)@ == old(self)@.with(
                seq![OpView::Call { callee: fn_name@, args: fn_args@, name: name@ }],
            ),
            value == old(self)@.script.len(),
    {
        self.emit(
            BackendOp::Call { callee: fn_name.to_owned(), args: fn_args, name: name.to_owned() },
        )
    }

    /// Lowers one instruction at the place where the builder stands.
    /// Before the tape is set up the call is refused.
    pub fn compile_instruction(&mut self, instruction: &MidiInstruction) -> (result:
        MCompileResult<()>)
        requires
            old(self)@.well_formed(),
            !(old(self)@.phase is Done),
        ensures
            final(self)@.well_formed(),
            match old(self)@.context {
                Some(context) => result is Ok && final(self)@ == old(self)@.with(
                    lower_instruction(instruction@, context, old(self)@.script.len()),
                ),
                None => result == Err::<(), MCompileError>(MCompileError::UninitializedContext)
                    && final(self)@ == old(self)@,
            },
    {
        match self.context {
            Some(context) => {
                self.emit_instruction(context, instruction);
                Ok(())
            },
            None => Err(MCompileError::UninitializedContext),
        }
    }

    /// Lowers a run of instructions, one after the other, at the place
    /// where the builder stands. Before the tape is set up the call is
    /// refused.
    pub fn compile_body(&mut self, body: &MidiAST) -> (result: MCompileResult<()>)
        requires
            old(self)@.well_formed(),
            !(old(self)@.phase is Done),
        ensures
            final(self)@.well_formed(),
            match old(self)@.context {
                Some(context) => result is Ok && final(self)@ == old(self)@.with(
                    lower_body(program_view(body@), context, old(self)@.script.len()),
                ),
                None => result == Err::<(), MCompileError>(MCompileError::UninitializedContext)
                    && final(self)@ == old(self)@,
            },
    {
        match self.context {
            Some(context) => {
                self.emit_body(context, body);
                Ok(())
            },
            None => Err(MCompileError::UninitializedContext),
        }
    }

    fn emit_instruction(&mut self, context: MidiContext, instruction: &MidiInstruction)
        ensures
            final(self)@ == old(self)@.with(
                lower_instruction(instruction@, context@, old(self)@.script.len()),
            ),
        decreases instruction,
    {
        match &instruction.instruction {
            MidiInstructionKind::IncrementCell { amount } => self.emit_increment(
                context,
                amount.0,
            ),
            MidiInstructionKind::MovePointer { amount } => self.emit_move(context, *amount),
            MidiInstructionKind::OutputCell => self.emit_output(context),
            MidiInstructionKind::InputCell => self.emit_input(context),
            MidiInstructionKind::Loop { body } => {
                let ghost at = old(self)@.script.len();
                let (header, after) = self.emit_loop_head(context);
                let ghost head = self@;
                self.emit_body(context, body);
                let ghost filled = self@;
                self.emit(BackendOp::Branch { target: header });
                self.position_builder_at_end(after);
                proof {
                    let inner = lower_body(program_view(body@), context@, at + 11);
                    assert(filled.script == head.script + inner);
                    assert(self@.script =~= old(self)@.script + (loop_head(context@, at) + inner
                        + loop_foot(at)));
                }
            },
        }
    }

    fn emit_increment(&mut self, context: MidiContext, amount: i8)
        ensures
            final(self)@ == old(self)@.with(
                increment_cell(context@, amount as int, old(self)@.script.len()),
            ),
    {
        let pointer = self.build_cell_address(context);
        let cell = self.emit(
            BackendOp::Load { ty: ValueType::Int8, pointer: Operand::Value { op: pointer } },
        );
        let sum = self.emit(
            BackendOp::Add { lhs: Operand::Value { op: cell }, rhs: int8(byte_of(amount)) },
        );
        self.emit(
            BackendOp::Store {
                value: Operand::Value { op: sum },
                pointer: Operand::Value { op: pointer },
            },
        );
        proof {
            assert(self@.script =~= old(self)@.script + increment_cell(
                context@,
                amount as int,
                old(self)@.script.len(),
            ));
        }
    }

    fn emit_move(&mut self, context: MidiContext, amount: isize)
        ensures
            final(self)@ == old(self)@.with(
                move_pointer(context@, amount as int, old(self)@.script.len()),
            ),
    {
        let cursor = self.emit(
            BackendOp::Load {
                ty: ValueType::Int32,
                pointer: Operand::Value { op: context.cell_idx_ptr },
            },
        );
        let moved = self.emit(
            BackendOp::Add { lhs: Operand::Value { op: cursor }, rhs: int32(word_of(amount)) },
        );
        self.emit(
            BackendOp::Store {
                value: Operand::Value { op: moved },
                pointer: Operand::Value { op: context.cell_idx_ptr },
            },
        );
        proof {
            assert(self@.script =~= old(self)@.script + move_pointer(
                context@,
                amount as int,
                old(self)@.script.len(),
            ));
        }
    }

    fn emit_output(&mut self, context: MidiContext)
        ensures
            final(self)@ == old(self)@.with(output_cell(context@, old(self)@.script.len())),
    {
        let pointer = self.build_cell_address(context);
        let cell = self.emit(
            BackendOp::Load { ty: ValueType::Int8, pointer: Operand::Value { op: pointer } },
        );
        let wide = self.emit(
            BackendOp::SignExtend { value: Operand::Value { op: cell }, to: ValueType::Int32 },
        );
        let putchar_args = vec![Operand::Value { op: wide }];
        assert(putchar_args@ =~= seq![Operand::Value { op: wide }]);
        self.add_function_call("putchar", putchar_args, "");
        proof {
            assert(self@.script =~= old(self)@.script + output_cell(
                context@,
                old(self)@.script.len(),
            ));
        }
    }

    fn emit_input(&mut self, context: MidiContext)
        ensures
            final(self)@ == old(self)@.with(input_cell(context@, old(self)@.script.len())),
    {
        let getchar_args: Vec<Operand> = vec![];
        assert(getchar_args@ =~= seq![]);
        let got = self.add_function_call("getchar", getchar_args, "");
        let byte = self.emit(
            BackendOp::Truncate { value: Operand::Value { op: got }, to: ValueType::Int8 },
        );
        let pointer = self.build_cell_address(context);
        self.emit(
            BackendOp::Store {
                value: Operand::Value { op: byte },
                pointer: Operand::Value { op: pointer },
            },
        );
        proof {
            assert(self@.script =~= old(self)@.script + input_cell(
                context@,
                old(self)@.script.len(),
            ));
        }
    }

    /// Opens a loop. Returns the handles of the block that tests the cell
    /// and of the block after the loop.
    fn emit_loop_head(&mut self, context: MidiContext) -> (blocks: (usize, usize))
        ensures
            final(self)@ == old(self)@.with(loop_head(context@, old(self)@.script.len())),
            blocks.0 == old(self)@.script.len(),
            blocks.1 == old(self)@.script.len() + 2,
    {
        let header = self.emit(
            BackendOp::AppendBlock { function: context.main_fn, name: "loop_header".to_owned() },
        );
        let inside = self.emit(
            BackendOp::AppendBlock { function: context.main_fn, name: "loop_body".to_owned() },
        );
        let after = self.emit(
            BackendOp::AppendBlock { function: context.main_fn, name: "loop_after".to_owned() },
        );
        self.emit(BackendOp::Branch { target: header });
        self.position_builder_at_end(header);
        let pointer = self.build_cell_address(context);
        let cell = self.emit(
            BackendOp::Load { ty: ValueType::Int8, pointer: Operand::Value { op: pointer } },
        );
        let condition = self.emit(BackendOp::IsNotZero { value: Operand::Value { op: cell } });
        self.emit(
            BackendOp::BranchIf {
                condition: Operand::Value { op: condition },
                then_block: inside,
                else_block: after,
            },
        );
        self.position_builder_at_end(inside);
        proof {
            assert(self@.script =~= old(self)@.script + loop_head(
                context@,
                old(self)@.script.len(),
            ));
        }
        (header, after)
    }

    fn emit_body(&mut self, context: MidiContext, body: &MidiAST)
        ensures
            final(self)@ == old(self)@.with(
                lower_body(program_view(body@), context@, old(self)@.script.len()),
            ),
        decreases body,
    {
        let ghost at = old(self)@.script.len();
        let ghost whole = program_view(body@);
        let mut i: usize = 0;
        proof {
            lemma_program_view_index(body@);
            assert(whole.take(0) =~= Seq::<InstructionView>::empty());
            assert(self@.script =~= old(self)@.script + lower_body(whole.take(0), context@, at));
        }
        while i < body.len()
            invariant
                i <= body.len(),
                whole == program_view(body@),
                whole.len() == body@.len(),
                at == old(self)@.script.len(),
                self@ == old(self)@.with(lower_body(whole.take(i as int), context@, at)),
            decreases body.len() - i,
        {
            let ghost front = lower_body(whole.take(i as int), context@, at);
            let ghost before = self@;
            self.emit_instruction(context, &body[i]);
            proof {
                lemma_program_view_index(body@);
                assert(whole.take(i + 1).drop_last() =~= whole.take(i as int));
                assert(whole.take(i + 1).last() == body[i as int]@);
                let next = lower_instruction(body[i as int]@, context@, at + front.len());
                assert(before.script.len() == at + front.len());
                assert(lower_body(whole.take(i + 1), context@, at) == front + next);
                assert(self@.script =~= old(self)@.script + (front + next));
            }
            i += 1;
        }
        proof {
            assert(whole.take(i as int) =~= whole);
        }
    }

    /// Reads the cursor and steps the tape pointer forward by it. Returns
    /// the handle of the address of the current cell.
    fn build_cell_address(&mut self, context: MidiContext) -> (pointer: usize)
        ensures
            final(self)@ == old(self)@.with(cell_address(context@, old(self)@.script.len())),
            pointer == old(self)@.script.len() + 1,
    {
        let cursor = self.emit(
            BackendOp::Load {
                ty: ValueType::Int32,
                pointer: Operand::Value { op: context.cell_idx_ptr },
            },
        );
        let pointer = self.emit(
            BackendOp::ElementPointer {
                base: Operand::Value { op: context.cells_ptr },
                index: Operand::Value { op: cursor },
            },
        );
        proof {
            assert(self@.script =~= old(self)@.script + cell_address(
                context@,
                old(self)@.script.len(),
            ));
        }
        pointer
    }

    fn position_builder_at_end(&mut self, bb: usize)
        ensures
            final(self)@ == old(self)@.with(seq![OpView::PositionAtEnd { block: bb }]),
    {
        self.emit(BackendOp::PositionAtEnd { block: bb });
    }
}

/// The allocation of the tape when the script already holds `at`
/// requests: `malloc`, then `memset` on what it returned.
pub open spec fn allocation_of_tape(num_cells: u64, at: nat) -> Seq<OpView> {
    seq![
        OpView::Call {
            callee: "malloc"@,
            args: seq![Operand::Const { ty: ValueType::Int32, value: num_cells }],
            name: "cells"@,
        },
        OpView::Call {
            callee: "llvm.memset.p0i8.i32"@,
            args: seq![
                Operand::Value { op: at as usize },
                Operand::Const { ty: ValueType::Int8, value: 0 },
                Operand::Const { ty: ValueType::Int32, value: num_cells },
                Operand::Const { ty: ValueType::Int32, value: 0 },
                Operand::Const { ty: ValueType::Int1, value: 0 },
            ],
            name: ""@,
        },
    ]
}

/// The allocation of the cursor when the script already holds `at`
/// requests: a stack slot, and zero stored in it.
pub open spec fn allocation_of_cursor(at: nat) -> Seq<OpView> {
    seq![
        OpView::Alloca { ty: ValueType::Int32, name: "cell_idx_ptr"@ },
        OpView::Store {
            value: Operand::Const { ty: ValueType::Int32, value: 0 },
            pointer: Operand::Value { op: at as usize },
        },
    ]
}

/// The bit pattern of a signed byte.
fn byte_of(amount: i8) -> (pattern: u64)
    ensures
        pattern == byte_pattern(amount as int),
{
    if amount >= 0 {
        amount as u64
    } else {
        (amount as i16 + 0x100) as u64
    }
}

/// The low 32 bits of the bit pattern of a signed amount.
fn word_of(amount: isize) -> (pattern: u64)
    ensures
        pattern == word_pattern(amount as int),
{
    let lifted: i128 = amount as i128 + 0x1_0000_0000_0000_0000;
    assert((amount as int + 0x1_0000_0000_0000_0000) % 0x1_0000_0000 == (amount as int)
        % 0x1_0000_0000) by {
        vstd::arithmetic::div_mod::lemma_mod_multiples_vanish(
            0x1_0000_0000,
            amount as int,
            0x1_0000_0000,
        );
    }
    ((lifted as u128) % 0x1_0000_0000) as u64
}

/// Lowers a whole program for a tape of `num_cells` cells: the prelude,
/// the instructions in order, the epilogue. The script that comes out
/// depends on the program and on the size of the tape, and on nothing
/// else. It names no handle before the request that yields it, and it
/// fills and ends every block that it appends.
pub fn compile_program(midi_program: &MidiAST, num_cells: u64) -> (result: MCompileResult<
    Vec<BackendOp>,
>)
    requires
        num_cells <= i32::MAX,
    ensures
        result matches Ok(script) && script_view(script@) == lower_program(
            program_view(midi_program@),
            num_cells,
        ),
        result matches Ok(script) ==> well_scoped(script_view(script@)) && keeps_discipline(
            script_view(script@),
        ),
{
    let mut midimod = MidiCompiler::new("midilang");
    midimod.init(num_cells)?;
    midimod.compile_body(midi_program)?;
    midimod.cleanup()?;
    let ghost requests = midimod.script.len();
    proof {
        let lowered = lower_program(program_view(midi_program@), num_cells);
        assert(midimod@.script =~= lowered);
        assert(lowered.len() == requests);
        lemma_lowered_program_well_scoped(program_view(midi_program@), num_cells);
        lemma_lowered_program_keeps_discipline(program_view(midi_program@), num_cells);
    }
    Ok(midimod.script)
}

/// A one-bit constant.
fn int1(val: u64) -> (constant: Operand)
    ensures
        constant == (Operand::Const { ty: ValueType::Int1, value: val }),
{
    Operand::Const { ty: ValueType::Int1, value: val }
}

/// An 8-bit constant.
fn int8(val: u64) -> (constant: Operand)
    ensures
        constant == (Operand::Const { ty: ValueType::Int8, value: val }),
{
    Operand::Const { ty: ValueType::Int8, value: val }
}

/// A 32-bit constant.
fn int32(val: u64) -> (constant: Operand)
    ensures
        constant == (Operand::Const { ty: ValueType::Int32, value: val }),
{
    Operand::Const { ty: ValueType::Int32, value: val }
}

} // verus!
