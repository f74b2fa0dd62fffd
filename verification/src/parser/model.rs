//! The instruction tree and the builder as mathematical values.

use crate::parser::Position;
use vstd::prelude::*;

verus! {

/// What an instruction does, as a mathematical value.
pub enum KindView {
    IncrementCell { amount: int },
    MovePointer { amount: int },
    OutputCell,
    InputCell,
    Loop { body: Seq<InstructionView> },
}

/// An instruction as a mathematical value: a whole tree, nested bodies
/// included.
pub struct InstructionView {
    pub position: Option<Position>,
    pub kind: KindView,
}

/// The marker that closes a loop, as a value.
pub open spec fn close_marker() -> InstructionView {
    InstructionView { position: None, kind: KindView::Loop { body: Seq::empty() } }
}

/// The marker that opens a loop, as a value.
pub open spec fn open_marker() -> InstructionView {
    InstructionView {
        position: Some(Position { start: 0, end: 0 }),
        kind: KindView::Loop { body: Seq::empty() },
    }
}

/// An error as a mathematical value.
pub enum ParseErrorView {
    NoTracks,
    UnclosedLoop(Seq<Position>),
    DanglingLoop(Position),
    NonDiatonic,
}

/// A loop that was opened and not yet closed, as a value: what had been
/// gathered around it when it opened, and the index of its opening marker.
pub struct OpenLoopView {
    pub outer: Seq<InstructionView>,
    pub start: nat,
}

/// A builder as a mathematical value.
pub struct BuilderView {
    /// The instructions gathered so far at the current nesting depth.
    pub body: Seq<InstructionView>,
    /// How many instructions and markers were taken in.
    pub size: nat,
    /// The loops that are open, the outermost first.
    pub loop_stack: Seq<OpenLoopView>,
}

/// The place of a leaf or of a marker: one index.
pub open spec fn single(index: nat) -> Position {
    Position { start: index as usize, end: index as usize }
}

impl InstructionView {
    /// A `Loop` that carries a position opens a loop.
    pub open spec fn opens_loop(self) -> bool {
        self.kind is Loop && self.position is Some
    }

    /// A `Loop` without a position closes the innermost open loop.
    pub open spec fn closes_loop(self) -> bool {
        self.kind is Loop && self.position is None
    }

    /// Anything but a `Loop` is a leaf.
    pub open spec fn is_leaf(self) -> bool {
        !(self.kind is Loop)
    }
}

impl BuilderView {
    /// The builder that has taken nothing in.
    pub open spec fn empty() -> BuilderView {
        BuilderView { body: Seq::empty(), size: 0, loop_stack: Seq::empty() }
    }

    /// The builder after it took in one more instruction or marker, or the
    /// reason why it cannot. Whatever comes in uses up one index.
    pub open spec fn push(self, incoming: InstructionView) -> Result<BuilderView, ParseErrorView> {
        if incoming.opens_loop() {
            Ok(
                BuilderView {
                    body: Seq::empty(),
                    size: self.size + 1,
                    loop_stack: self.loop_stack.push(
                        OpenLoopView { outer: self.body, start: self.size },
                    ),
                },
            )
        } else if incoming.closes_loop() {
            if self.loop_stack.len() == 0 {
                Err(ParseErrorView::DanglingLoop(single(self.size)))
            } else {
                let innermost = self.loop_stack.last();
                let closed = InstructionView {
                    position: Some(
                        Position { start: innermost.start as usize, end: self.size as usize },
                    ),
                    kind: KindView::Loop { body: self.body },
                };
                Ok(
                    BuilderView {
                        body: innermost.outer.push(closed),
                        size: self.size + 1,
                        loop_stack: self.loop_stack.drop_last(),
                    },
                )
            }
        } else {
            let stamped = InstructionView {
                position: Some(single(self.size)),
                kind: incoming.kind,
            };
            Ok(
                BuilderView {
                    body: self.body.push(stamped),
                    size: self.size + 1,
                    loop_stack: self.loop_stack,
                },
            )
        }
    }

    /// Where each open loop began, the outermost first.
    pub open spec fn open_positions(self) -> Seq<Position> {
        Seq::new(self.loop_stack.len(), |i: int| single(self.loop_stack[i].start))
    }

    /// The finished program, which exists once every loop is closed.
    pub open spec fn finish(self) -> Result<Seq<InstructionView>, ParseErrorView> {
        if self.loop_stack.len() == 0 {
            Ok(self.body)
        } else {
            Err(ParseErrorView::UnclosedLoop(self.open_positions()))
        }
    }

    /// The builder after it took in `incoming` from first to last, or the
    /// first reason why it could not go on.
    pub open spec fn push_all(self, incoming: Seq<InstructionView>) -> Result<
        BuilderView,
        ParseErrorView,
    >
        decreases incoming.len(),
    {
        if incoming.len() == 0 {
            Ok(self)
        } else {
            match self.push_all(incoming.drop_last()) {
                Ok(builder) => builder.push(incoming.last()),
                Err(error) => Err(error),
            }
        }
    }
}

/// The program that a stream of instructions and markers builds, or the
/// reason why it builds none.
pub open spec fn build(incoming: Seq<InstructionView>) -> Result<
    Seq<InstructionView>,
    ParseErrorView,
> {
    match BuilderView::empty().push_all(incoming) {
        Ok(builder) => builder.finish(),
        Err(error) => Err(error),
    }
}


/// The instructions of `program` use up the indices from `from` up to,
/// but not including, `to`: each index exactly once, in order.
pub open spec fn covers(program: Seq<InstructionView>, from: nat, to: nat) -> bool
    decreases program,
{
    if program.len() == 0 {
        from == to
    } else {
        program.last().position matches Some(position) && from <= position.start && covers(
            program.drop_last(),
            from,
            position.start as nat,
        ) && fills(program.last(), position.start as nat, to)
    }
}

/// The instruction uses up the indices from `from` up to, but not
/// including, `to`. A leaf uses one index. A loop uses one for the marker
/// that opened it, those of its body, and one for the marker that closed
/// it: it was opened once and closed once, after all that it holds.
pub open spec fn fills(instruction: InstructionView, from: nat, to: nat) -> bool
    decreases instruction,
{
    instruction.position matches Some(position) && position.start == from && to == position.end
        + 1 && match instruction.kind {
        KindView::Loop { body } => from < position.end && covers(
            body,
            from + 1,
            position.end as nat,
        ),
        _ => position.end == from,
    }
}

/// A program is well nested if its instructions use up the indices from
/// zero on, each exactly once.
pub open spec fn well_nested(program: Seq<InstructionView>) -> bool {
    covers(
        program,
        0,
        if program.len() == 0 {
            0
        } else {
            match program.last().position {
                Some(position) => (position.end + 1) as nat,
                None => 0,
            }
        },
    )
}

/// The index at which the body of the innermost open loop begins, or zero
/// where no loop is open.
pub open spec fn floor_of(loop_stack: Seq<OpenLoopView>) -> nat {
    if loop_stack.len() == 0 {
        0
    } else {
        loop_stack.last().start + 1
    }
}

/// What was gathered around each open loop uses up the indices between
/// the loop that holds it and the loop itself.
pub open spec fn stack_covers(loop_stack: Seq<OpenLoopView>) -> bool
    decreases loop_stack.len(),
{
    loop_stack.len() > 0 ==> stack_covers(loop_stack.drop_last()) && covers(
        loop_stack.last().outer,
        floor_of(loop_stack.drop_last()),
        loop_stack.last().start,
    )
}

impl BuilderView {
    /// All that the builder holds uses up the indices below its size, each
    /// exactly once, and the size is one that a position can hold.
    pub open spec fn well_formed(self) -> bool {
        &&& self.size <= usize::MAX
        &&& stack_covers(self.loop_stack)
        &&& covers(self.body, floor_of(self.loop_stack), self.size)
    }
}

/// A run of instructions uses up a range that does not run backwards.
pub proof fn lemma_covers_in_order(program: Seq<InstructionView>, from: nat, to: nat)
    requires
        covers(program, from, to),
    ensures
        from <= to,
        program.len() > 0 ==> (program.last().position matches Some(position) && to
            == position.end + 1),
    decreases program.len(),
{
    reveal_with_fuel(covers, 2);
    reveal_with_fuel(fills, 2);
    if program.len() > 0 {
        let position = program.last().position->Some_0;
        lemma_covers_in_order(program.drop_last(), from, position.start as nat);
    }
}

/// A builder stays well formed when it takes in one more instruction or
/// marker.
pub proof fn lemma_push_keeps_well_formed(builder: BuilderView, incoming: InstructionView)
    requires
        builder.well_formed(),
        builder.size < usize::MAX,
    ensures
        builder.push(incoming) matches Ok(next) ==> (next.well_formed() && next.size
            == builder.size + 1),
{
    reveal_with_fuel(covers, 2);
    reveal_with_fuel(fills, 2);
    reveal_with_fuel(stack_covers, 2);
    lemma_covers_in_order(builder.body, floor_of(builder.loop_stack), builder.size);
    if incoming.opens_loop() {
        let next = builder.push(incoming)->Ok_0;
        assert(next.loop_stack.drop_last() =~= builder.loop_stack);
    } else if incoming.closes_loop() {
        if builder.loop_stack.len() > 0 {
            let next = builder.push(incoming)->Ok_0;
            let innermost = builder.loop_stack.last();
            assert(next.body.drop_last() =~= innermost.outer);
            lemma_covers_in_order(
                innermost.outer,
                floor_of(builder.loop_stack.drop_last()),
                innermost.start,
            );
        }
    } else {
        let next = builder.push(incoming)->Ok_0;
        assert(next.body.drop_last() =~= builder.body);
    }
}

/// The program of a well-formed builder is well nested.
pub proof fn lemma_finish_well_nested(builder: BuilderView)
    requires
        builder.well_formed(),
    ensures
        builder.finish() matches Ok(program) ==> (well_nested(program) && covers(
            program,
            0,
            builder.size,
        )),
{
    if builder.loop_stack.len() == 0 {
        lemma_covers_in_order(builder.body, 0, builder.size);
    }
}

/// Every program that a stream of instructions and markers builds is well
/// nested: every loop in it was opened once and closed once, after the
/// loops that were opened inside it.
pub proof fn lemma_build_well_nested(incoming: Seq<InstructionView>)
    requires
        incoming.len() <= usize::MAX,
    ensures
        build(incoming) matches Ok(program) ==> (well_nested(program) && covers(
            program,
            0,
            incoming.len(),
        )),
{
    lemma_push_all_well_formed(BuilderView::empty(), incoming);
    if let Ok(builder) = BuilderView::empty().push_all(incoming) {
        lemma_finish_well_nested(builder);
    }
}

/// A builder stays well formed over a whole stream.
pub proof fn lemma_push_all_well_formed(builder: BuilderView, incoming: Seq<InstructionView>)
    requires
        builder.well_formed(),
        builder.size + incoming.len() <= usize::MAX,
    ensures
        builder.push_all(incoming) matches Ok(next) ==> (next.well_formed() && next.size
            == builder.size + incoming.len()),
    decreases incoming.len(),
{
    if incoming.len() > 0 {
        lemma_push_all_well_formed(builder, incoming.drop_last());
        if let Ok(before) = builder.push_all(incoming.drop_last()) {
            lemma_push_keeps_well_formed(before, incoming.last());
        }
    }
}

} // verus!
