//! The discipline of the instruction builder: every block that a script
//! appends is filled once and ended once, and no instruction lands outside
//! a block or behind the end of one.

use crate::compiler::lowering::{
    allocation, declarations, entry_routine, epilogue, increment_cell, input_cell, loop_foot,
    loop_head, loop_head_len, lower_body, lower_instruction, lower_program, move_pointer,
    output_cell, prelude, prelude_context, prelude_len, ContextView,
};
use crate::compiler::script::OpView;
use crate::parser::model::{InstructionView, KindView};
use vstd::prelude::*;

verus! {

/// Where the instruction builder stands while a script is replayed.
pub struct BuilderState {
    /// Whether the builder stands in a block that still lacks its end.
    pub open: bool,
    /// The blocks that the builder has stood in.
    pub used: Set<usize>,
}

impl OpView {
    /// Whether the request puts an instruction that is no terminator into
    /// the block that the builder stands in.
    pub open spec fn is_plain(self) -> bool {
        !self.is_terminator() && !(self is AddFunction) && !(self is AppendBlock) && !(self
            is PositionAtEnd)
    }
}

impl BuilderState {
    /// The builder before the first request.
    pub open spec fn start() -> BuilderState {
        BuilderState { open: false, used: Set::empty() }
    }

    /// The builder after one request, or `None` where the request breaks
    /// the discipline: an instruction needs an open block, a terminator
    /// ends it, and the builder moves on only from a block that is ended
    /// and only into a block that it has not stood in before.
    pub open spec fn step(self, op: OpView) -> Option<BuilderState> {
        match op {
            OpView::AddFunction { .. } => Some(self),
            OpView::AppendBlock { .. } => Some(self),
            OpView::PositionAtEnd { block } => if !self.open && !self.used.contains(block) {
                Some(BuilderState { open: true, used: self.used.insert(block) })
            } else {
                None
            },
            _ => if !self.open {
                None
            } else if op.is_terminator() {
                Some(BuilderState { open: false, used: self.used })
            } else {
                Some(self)
            },
        }
    }

    /// The builder after a run of requests, or `None` where one of them
    /// breaks the discipline.
    pub open spec fn replay(self, ops: Seq<OpView>) -> Option<BuilderState>
        decreases ops.len(),
    {
        if ops.len() == 0 {
            Some(self)
        } else {
            match self.replay(ops.drop_last()) {
                Some(before) => before.step(ops.last()),
                None => None,
            }
        }
    }
}

/// The blocks that a run of requests appends when the script already
/// holds `at` requests.
pub open spec fn appended(ops: Seq<OpView>, at: nat) -> Set<usize> {
    Set::new(|block: usize| at <= block < at + ops.len() && ops[block - at] is AppendBlock)
}

/// A script keeps the discipline of the builder: it can be replayed to
/// its end, the last block is ended, and the builder has stood in every
/// block that the script appends.
pub open spec fn keeps_discipline(script: Seq<OpView>) -> bool {
    BuilderState::start().replay(script) == Some(
        BuilderState { open: false, used: appended(script, 0) },
    )
}

/// One more request after a run of requests is one more step.
pub proof fn lemma_replay_push(state: BuilderState, ops: Seq<OpView>, op: OpView)
    ensures
        state.replay(ops.push(op)) == match state.replay(ops) {
            Some(before) => before.step(op),
            None => None,
        },
{
    assert(ops.push(op).drop_last() =~= ops);
}

/// Replaying one run of requests and then another is replaying the two
/// joined.
pub proof fn lemma_replay_concat(state: BuilderState, first: Seq<OpView>, second: Seq<OpView>)
    ensures
        state.replay(first + second) == match state.replay(first) {
            Some(between) => between.replay(second),
            None => None,
        },
    decreases second.len(),
{
    if second.len() == 0 {
        assert(first + second =~= first);
    } else {
        assert((first + second).drop_last() =~= first + second.drop_last());
        lemma_replay_concat(state, first, second.drop_last());
    }
}

/// The blocks of two runs of requests are the blocks of the two joined.
pub proof fn lemma_appended_concat(first: Seq<OpView>, second: Seq<OpView>, at: nat)
    ensures
        appended(first + second, at) == appended(first, at).union(
            appended(second, at + first.len()),
        ),
{
    let joined = first + second;
    assert forall|block: usize|
        appended(joined, at).contains(block) <==> appended(first, at).union(
            appended(second, at + first.len()),
        ).contains(block) by {
        if at <= block < at + joined.len() {
            if block < at + first.len() {
                assert(joined[block - at] == first[block - at]);
            } else {
                assert(joined[block - at] == second[block - at - first.len()]);
            }
        }
    }
    assert(appended(joined, at) =~= appended(first, at).union(
        appended(second, at + first.len()),
    ));
}

/// Plain instructions leave an open builder as it is and append no block.
pub proof fn lemma_replay_plain(state: BuilderState, ops: Seq<OpView>, at: nat)
    requires
        state.open,
        forall|i: int| 0 <= i < ops.len() ==> (#[trigger] ops[i]).is_plain(),
    ensures
        state.replay(ops) == Some(state),
        appended(ops, at) == Set::<usize>::empty(),
    decreases ops.len(),
{
    if ops.len() > 0 {
        lemma_replay_plain(state, ops.drop_last(), at);
        assert(ops.last().is_plain());
    }
    assert(appended(ops, at) =~= Set::<usize>::empty());
}

/// The requests of a leaf keep the discipline: they leave an open builder
/// as it is and append no block.
pub proof fn lemma_leaf_keeps_discipline(
    state: BuilderState,
    instruction: InstructionView,
    context: ContextView,
    at: nat,
)
    requires
        state.open,
        instruction.is_leaf(),
    ensures
        state.replay(lower_instruction(instruction, context, at)) == Some(state),
        appended(lower_instruction(instruction, context, at), at) == Set::<usize>::empty(),
{
    let ops = lower_instruction(instruction, context, at);
    assert forall|i: int| 0 <= i < ops.len() implies (#[trigger] ops[i]).is_plain() by {
        match instruction.kind {
            KindView::IncrementCell { amount } => {
                assert(ops =~= increment_cell(context, amount, at));
            },
            KindView::MovePointer { amount } => {
                assert(ops =~= move_pointer(context, amount, at));
            },
            KindView::OutputCell => {
                assert(ops =~= output_cell(context, at));
            },
            KindView::InputCell => {
                assert(ops =~= input_cell(context, at));
            },
            KindView::Loop { .. } => {},
        }
    }
    lemma_replay_plain(state, ops, at);
}

/// The head of a loop ends the block that the builder stands in, fills
/// the block that tests the cell, and opens the block of the body.
pub proof fn lemma_loop_head_keeps_discipline(
    state: BuilderState,
    context: ContextView,
    at: nat,
)
    requires
        state.open,
        forall|block: usize| state.used.contains(block) ==> block < at,
        at + loop_head_len() <= usize::MAX,
    ensures
        state.replay(loop_head(context, at)) == Some(
            BuilderState {
                open: true,
                used: state.used.insert(at as usize).insert((at + 1) as usize),
            },
        ),
        appended(loop_head(context, at), at) == Set::<usize>::empty().insert(at as usize).insert(
            (at + 1) as usize,
        ).insert((at + 2) as usize),
{
    let head = loop_head(context, at);
    let h0 = Seq::<OpView>::empty();
    let h1 = h0.push(head[0]);
    let h2 = h1.push(head[1]);
    let h3 = h2.push(head[2]);
    let h4 = h3.push(head[3]);
    let h5 = h4.push(head[4]);
    let h6 = h5.push(head[5]);
    let h7 = h6.push(head[6]);
    let h8 = h7.push(head[7]);
    let h9 = h8.push(head[8]);
    let h10 = h9.push(head[9]);
    let h11 = h10.push(head[10]);
    assert(head.len() == 11);
    assert(head =~= h11);
    lemma_replay_push(state, h0, head[0]);
    lemma_replay_push(state, h1, head[1]);
    lemma_replay_push(state, h2, head[2]);
    lemma_replay_push(state, h3, head[3]);
    lemma_replay_push(state, h4, head[4]);
    lemma_replay_push(state, h5, head[5]);
    lemma_replay_push(state, h6, head[6]);
    lemma_replay_push(state, h7, head[7]);
    lemma_replay_push(state, h8, head[8]);
    lemma_replay_push(state, h9, head[9]);
    lemma_replay_push(state, h10, head[10]);
    assert(state.replay(h4) == Some(BuilderState { open: false, used: state.used }));
    assert(state.replay(h5) == Some(
        BuilderState { open: true, used: state.used.insert(at as usize) },
    ));
    assert(state.replay(h10) == Some(
        BuilderState { open: false, used: state.used.insert(at as usize) },
    ));
    let blocks = Set::<usize>::empty().insert(at as usize).insert((at + 1) as usize).insert(
        (at + 2) as usize,
    );
    assert forall|block: usize| appended(head, at).contains(block) <==> blocks.contains(
        block,
    ) by {
        if at <= block < at + 11 {
            let offset = block - at;
            assert(head[0] is AppendBlock);
            assert(head[1] is AppendBlock);
            assert(head[2] is AppendBlock);
            assert(!(head[3] is AppendBlock));
            assert(!(head[4] is AppendBlock));
            assert(!(head[5] is AppendBlock));
            assert(!(head[6] is AppendBlock));
            assert(!(head[7] is AppendBlock));
            assert(!(head[8] is AppendBlock));
            assert(!(head[9] is AppendBlock));
            assert(!(head[10] is AppendBlock));
        }
    }
    assert(appended(head, at) =~= blocks);
}

/// The requests of an instruction keep the discipline: started in an open
/// block, they end in an open block, and the builder has stood in every
/// block that they append and in no other new block.
pub proof fn lemma_instruction_keeps_discipline(
    state: BuilderState,
    instruction: InstructionView,
    context: ContextView,
    at: nat,
)
    requires
        state.open,
        forall|block: usize| state.used.contains(block) ==> block < at,
        at + lower_instruction(instruction, context, at).len() <= usize::MAX,
    ensures
        state.replay(lower_instruction(instruction, context, at)) == Some(
            BuilderState {
                open: true,
                used: state.used.union(appended(lower_instruction(instruction, context, at), at)),
            },
        ),
    decreases instruction,
{
    match instruction.kind {
        KindView::Loop { body } => {
            let head = loop_head(context, at);
            let inner = lower_body(body, context, at + loop_head_len());
            let foot = loop_foot(at);
            let lowered = lower_instruction(instruction, context, at);
            assert(head.len() == 11);
            assert(lowered =~= (head + inner) + foot);
            lemma_loop_head_keeps_discipline(state, context, at);
            let opened = state.replay(head)->Some_0;
            lemma_body_keeps_discipline(opened, body, context, at + loop_head_len());
            let filled = opened.replay(inner)->Some_0;
            lemma_replay_concat(state, head, inner);
            lemma_replay_concat(state, head + inner, foot);
            let f0 = Seq::<OpView>::empty();
            let f1 = f0.push(foot[0]);
            let f2 = f1.push(foot[1]);
            assert(foot =~= f2);
            lemma_replay_push(filled, f0, foot[0]);
            lemma_replay_push(filled, f1, foot[1]);
            assert(!filled.used.contains((at + 2) as usize));
            lemma_appended_concat(head, inner, at);
            lemma_appended_concat(head + inner, foot, at);
            assert(appended(foot, at + head.len() + inner.len()) =~= Set::<usize>::empty());
            assert(filled.used.insert((at + 2) as usize) =~= state.used.union(
                appended(lowered, at),
            ));
        },
        _ => {
            lemma_leaf_keeps_discipline(state, instruction, context, at);
            assert(state.used.union(Set::<usize>::empty()) =~= state.used);
        },
    }
}

/// The requests of a run of instructions keep the discipline.
pub proof fn lemma_body_keeps_discipline(
    state: BuilderState,
    body: Seq<InstructionView>,
    context: ContextView,
    at: nat,
)
    requires
        state.open,
        forall|block: usize| state.used.contains(block) ==> block < at,
        at + lower_body(body, context, at).len() <= usize::MAX,
    ensures
        state.replay(lower_body(body, context, at)) == Some(
            BuilderState {
                open: true,
                used: state.used.union(appended(lower_body(body, context, at), at)),
            },
        ),
    decreases body,
{
    if body.len() == 0 {
        assert(appended(lower_body(body, context, at), at) =~= Set::<usize>::empty());
        assert(state.used.union(Set::<usize>::empty()) =~= state.used);
    } else {
        let front = lower_body(body.drop_last(), context, at);
        let last = lower_instruction(body.last(), context, at + front.len());
        lemma_body_keeps_discipline(state, body.drop_last(), context, at);
        let between = state.replay(front)->Some_0;
        lemma_instruction_keeps_discipline(between, body.last(), context, at + front.len());
        lemma_replay_concat(state, front, last);
        lemma_appended_concat(front, last, at);
        assert(between.used.union(appended(last, at + front.len())) =~= state.used.union(
            appended(front + last, at),
        ));
    }
}

/// The prelude leaves the builder in the open `start` block, after it
/// filled and ended `init`.
pub proof fn lemma_prelude_keeps_discipline(num_cells: u64)
    ensures
        BuilderState::start().replay(prelude(num_cells)) == Some(
            BuilderState { open: true, used: appended(prelude(num_cells), 0) },
        ),
        forall|block: usize| appended(prelude(num_cells), 0).contains(block) ==> block < 15,
{
    let script = prelude(num_cells);
    let start = BuilderState::start();
    let declared = declarations();
    let entry = entry_routine();
    let setup = allocation(num_cells);
    let o0 = Seq::<OpView>::empty();
    let o1 = o0.push(declared[0]);
    let o2 = o1.push(declared[1]);
    let o3 = o2.push(declared[2]);
    let o4 = o3.push(declared[3]);
    let o5 = o4.push(declared[4]);
    let o6 = o5.push(entry[0]);
    let o7 = o6.push(entry[1]);
    let o8 = o7.push(entry[2]);
    let o9 = o8.push(entry[3]);
    let o10 = o9.push(setup[0]);
    let o11 = o10.push(setup[1]);
    let o12 = o11.push(setup[2]);
    let o13 = o12.push(setup[3]);
    let o14 = o13.push(setup[4]);
    let o15 = o14.push(setup[5]);
    assert(script =~= o15);
    lemma_replay_push(start, o0, declared[0]);
    lemma_replay_push(start, o1, declared[1]);
    lemma_replay_push(start, o2, declared[2]);
    lemma_replay_push(start, o3, declared[3]);
    lemma_replay_push(start, o4, declared[4]);
    lemma_replay_push(start, o5, entry[0]);
    lemma_replay_push(start, o6, entry[1]);
    lemma_replay_push(start, o7, entry[2]);
    lemma_replay_push(start, o8, entry[3]);
    lemma_replay_push(start, o9, setup[0]);
    lemma_replay_push(start, o10, setup[1]);
    lemma_replay_push(start, o11, setup[2]);
    lemma_replay_push(start, o12, setup[3]);
    lemma_replay_push(start, o13, setup[4]);
    lemma_replay_push(start, o14, setup[5]);
    let both = Set::<usize>::empty().insert(6usize).insert(7usize);
    assert(start.replay(o8) == Some(start));
    assert(start.replay(o9) == Some(
        BuilderState { open: true, used: Set::<usize>::empty().insert(6usize) },
    ));
    assert(start.replay(o14) == Some(
        BuilderState { open: false, used: Set::<usize>::empty().insert(6usize) },
    ));
    assert forall|block: usize| appended(script, 0).contains(block) <==> both.contains(block) by {
        if block < 15 {
            assert(script[0] == declared[0]);
            assert(script[1] == declared[1]);
            assert(script[2] == declared[2]);
            assert(script[3] == declared[3]);
            assert(script[4] == declared[4]);
            assert(script[5] == entry[0]);
            assert(script[6] == entry[1]);
            assert(script[7] == entry[2]);
            assert(script[8] == entry[3]);
            assert(script[9] == setup[0]);
            assert(script[10] == setup[1]);
            assert(script[11] == setup[2]);
            assert(script[12] == setup[3]);
            assert(script[13] == setup[4]);
            assert(script[14] == setup[5]);
        }
    }
    assert(appended(script, 0) =~= both);
}

/// Every script that a program is lowered to keeps the discipline of the
/// builder: each block that it appends is filled once and ended once, by
/// a jump or by the return, and every instruction stands in a block,
/// before the end of that block.
pub proof fn lemma_lowered_program_keeps_discipline(
    program: Seq<InstructionView>,
    num_cells: u64,
)
    requires
        lower_program(program, num_cells).len() <= usize::MAX,
    ensures
        keeps_discipline(lower_program(program, num_cells)),
{
    let context = prelude_context();
    let opening = prelude(num_cells);
    let body = lower_body(program, context, prelude_len());
    let ending = epilogue(context);
    let start = BuilderState::start();
    lemma_prelude_keeps_discipline(num_cells);
    let opened = start.replay(opening)->Some_0;
    assert(opening.len() == 15);
    lemma_body_keeps_discipline(opened, program, context, prelude_len());
    let filled = opened.replay(body)->Some_0;
    lemma_replay_concat(start, opening, body);
    lemma_replay_concat(start, opening + body, ending);
    let e0 = Seq::<OpView>::empty();
    let e1 = e0.push(ending[0]);
    let e2 = e1.push(ending[1]);
    assert(ending =~= e2);
    lemma_replay_push(filled, e0, ending[0]);
    lemma_replay_push(filled, e1, ending[1]);
    lemma_appended_concat(opening, body, 0);
    lemma_appended_concat(opening + body, ending, 0);
    assert(appended(ending, opening.len() + body.len()) =~= Set::<usize>::empty());
    assert(filled.used =~= appended(lower_program(program, num_cells), 0));
}

} // verus!
